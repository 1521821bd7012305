use rust_sdt::paper::{
    accept, check_query, filter_papers, first_total, fmt_date, holds, matches_filter, page_numbers,
    render_text, truncate, AnswerError, Paper, Query, QueryError,
};
use rust_sdt::report::{
    agree, compare_report, csv_row, es_header, file_of, forward_report, judge, mixed_header,
    parse_train_csv, train_header, train_row, Comparison, CsvError, CsvRow, ForwardFigures, Rule,
};
use rust_sdt::text::{
    chars_of, find, find_char, parse_usize, push_decimal, same, split_at, string_of, trim,
};

fn text(s: &str) -> Option<String> {
    Some(s.to_string())
}

fn paper(title: &str) -> Paper {
    Paper {
        id: Some(1),
        title: text(title),
        recommended_title: None,
        abstract_cn: None,
        abstract_en: None,
        authors: None,
        publish_date: None,
        arxiv_id: None,
        arxiv_url: None,
        pdf_url: None,
        code_link: None,
        star: "0.0".to_string(),
    }
}

#[test]
fn texts_are_taken_apart() {
    assert!(same("a/b", "a/b"));
    assert!(!same("a", "b"));
    let c = chars_of("  x,y ,, ");
    assert_eq!(string_of(&trim(&c)), "x,y ,,");
    let parts: Vec<String> = split_at(&chars_of("a,b,,"), ',').iter().map(|p| string_of(p)).collect();
    assert_eq!(parts, vec!["a", "b", "", ""]);
    assert_eq!(find(&chars_of("shape: (1,)"), &chars_of("(")), Some(7));
    assert_eq!(find(&chars_of("abc"), &chars_of("d")), None);
    assert_eq!(find_char(&chars_of("abcb"), 'b', 2), Some(3));
    assert_eq!(parse_usize(&chars_of("0042")), Some(42));
    assert_eq!(parse_usize(&chars_of("4 2")), None);
    assert_eq!(parse_usize(&chars_of("")), None);
    let mut v = Vec::new();
    push_decimal(&mut v, 1203);
    assert_eq!(string_of(&v), "1203");
}

#[test]
fn rows_and_files() {
    assert_eq!(
        csv_row(&vec!["1".to_string(), "2.50".to_string(), String::new()]),
        "1,2.50,"
    );
    assert_eq!(file_of(&vec!["a".to_string(), "b".to_string()]), "a\nb\n");
    assert_eq!(file_of(&vec![]), "\n");
    assert_eq!(train_header(), "epoch,train_loss,val_top1");
    assert_eq!(es_header().split(',').count(), 7);
    assert_eq!(mixed_header().split(',').count(), 7);
}

#[test]
fn a_table_reads_back() {
    let rows = [
        CsvRow { epoch: 1, train_loss: "2.301000".to_string(), val_top1: "10.50".to_string() },
        CsvRow { epoch: 2, train_loss: "1.900000".to_string(), val_top1: "31.25".to_string() },
    ];
    let mut lines = vec![train_header().to_string()];
    for r in rows.iter() {
        lines.push(train_row(r));
    }
    let back = match parse_train_csv(&file_of(&lines)) {
        Ok(v) => v,
        Err(e) => panic!("{:?}", e),
    };
    assert_eq!(back.len(), 2);
    assert_eq!(back[1].epoch, 2);
    assert_eq!(back[1].train_loss, "1.900000");
    assert_eq!(back[0].val_top1, "10.50");
}

#[test]
fn tables_may_hold_blanks_and_empty_lines() {
    let back = match parse_train_csv("h\r\n\r\n 3 , 0.5 ,7,more\r\n") {
        Ok(v) => v,
        Err(e) => panic!("{:?}", e),
    };
    assert_eq!(back.len(), 1);
    assert_eq!((back[0].epoch, back[0].train_loss.as_str()), (3, "0.5"));
    assert_eq!(back[0].val_top1, "7");
}

#[test]
fn broken_tables() {
    assert!(matches!(parse_train_csv("h\n1,2\n"), Err(CsvError::ShortLine)));
    assert!(matches!(parse_train_csv("h\nx,2,3\n"), Err(CsvError::BadEpoch)));
    assert!(matches!(parse_train_csv("h\n\n"), Err(CsvError::Empty)));
    assert!(matches!(parse_train_csv(""), Err(CsvError::Empty)));
}

fn comparison() -> Comparison {
    Comparison {
        burn_csv: "b.csv".to_string(),
        pytorch_csv: "p.csv".to_string(),
        top1_tol: "5".to_string(),
        loss_tol: "0.1".to_string(),
        burn: vec![("1.000000".to_string(), "10.00".to_string())],
        pytorch: vec![
            ("1.100000".to_string(), "11.00".to_string()),
            ("0.900000".to_string(), "20.00".to_string()),
        ],
        burn_epoch: 1,
        pytorch_epoch: 2,
        burn_top1: "10.00".to_string(),
        pytorch_top1: "20.00".to_string(),
        top1_diff: "10.00".to_string(),
        top1_rel: "50.00".to_string(),
        top1_limit: "5.00".to_string(),
        burn_loss: "1.000000".to_string(),
        pytorch_loss: "0.900000".to_string(),
        loss_diff: "0.100000".to_string(),
        loss_limit: "0.10".to_string(),
        top1_ok: false,
        loss_ok: true,
    }
}

#[test]
fn a_comparison_is_reported() {
    let c = comparison();
    assert!(!agree(&c));
    let r = compare_report(&c);
    assert_eq!(r.len(), 14);
    assert_eq!(r[1], "burn_csv: b.csv");
    assert_eq!(
        r[3],
        "判定口径：val_top1 相对偏差 ≤5%（分母=pytorch）；train_loss 绝对差 ≤0.1"
    );
    assert_eq!(r[7], "1 | 1.000000 / 10.00 | 1.100000 / 11.00");
    assert_eq!(r[8], "2 | - | 0.900000 / 20.00");
    assert_eq!(r[10], "-- 最终判定（burn epoch=1 vs pytorch epoch=2） --");
    assert_eq!(
        r[11],
        "val_top1: burn=10.00% pytorch=20.00% 绝对差=10.00pp 相对差=50.00% 允许=≤5.00% 判定=FAIL"
    );
    assert_eq!(
        r[12],
        "train_loss: burn=1.000000 pytorch=0.900000 绝对差=0.100000 允许=≤0.10 判定=PASS"
    );
    assert_eq!(r[13], "最终判定: FAIL");
}

#[test]
fn forward_passes_are_judged() {
    assert_eq!(judge(true, true, false), Rule::Regular);
    assert_eq!(judge(true, false, true), Rule::FewElements);
    assert_eq!(judge(true, false, false), Rule::Fail);
    assert_eq!(judge(false, true, true), Rule::Fail);
    let r = forward_report(&ForwardFigures {
        npz: "x.npz".to_string(),
        shape: "[1, 10]".to_string(),
        max_abs: "1e-6".to_string(),
        mean_abs: "1e-7".to_string(),
        rel_l2: "1e-5".to_string(),
        mismatch_ratio: "0e0".to_string(),
        rule: Rule::Regular,
    });
    assert_eq!(r.len(), 10);
    assert_eq!(
        r[4],
        "logits: shape=[1, 10] max_abs=1e-6 mean_abs=1e-7 rel_l2=1e-5 mismatch_ratio=0e0 判定=PASS（常规(rel_l2<0.05 且 max_abs<0.05)）"
    );
    assert_eq!(r[5], "最终判定: PASS（整体 logits PASS）");
}

#[test]
fn queries_are_checked() {
    assert_eq!(check_query(20, 1, 1), Ok(()));
    assert_eq!(check_query(0, 1, 1), Err(QueryError::Num));
    assert_eq!(check_query(101, 1, 1), Err(QueryError::Num));
    assert_eq!(check_query(20, 1, 0), Err(QueryError::Pages));
    assert_eq!(check_query(20, u32::MAX, 2), Err(QueryError::Page));
    assert_eq!(page_numbers(3, 2), vec![3, 4]);
}

#[test]
fn answers_are_accepted_by_code() {
    assert_eq!(accept(true, 0, Some(5)), Ok(5));
    assert_eq!(accept(true, 200, Some(5)), Ok(5));
    assert_eq!(accept(true, 500, Some(5)), Err(AnswerError::Rejected));
    assert_eq!(accept(false, 0, Some(5)), Err(AnswerError::Rejected));
    assert_eq!(accept(true, 0, None::<i32>), Err(AnswerError::NoData));
    assert_eq!(first_total(None, Some(3)), Some(3));
    assert_eq!(first_total(Some(2), Some(3)), Some(2));
}

#[test]
fn fields_fall_back() {
    let mut p = paper("");
    assert_eq!(p.title(), "(无标题)");
    p.recommended_title = text("R");
    assert_eq!(p.title(), "R");
    assert_eq!(p.abstract_text(), None);
    p.abstract_en = text("en");
    assert_eq!(p.abstract_text(), Some("en"));
    p.abstract_cn = text("cn");
    assert_eq!(p.abstract_text(), Some("cn"));
    assert_eq!(p.link(), None);
    p.pdf_url = text("pdf");
    assert_eq!(p.link(), Some("pdf"));
    p.arxiv_url = text("arxiv");
    assert_eq!(p.link(), Some("arxiv"));
}

#[test]
fn filters_ignore_case() {
    let mut p = paper("Evolution Strategies");
    p.abstract_en = text("DRIFTING models");
    assert!(matches_filter(&p, "evolution"));
    assert!(matches_filter(&p, "Drifting"));
    assert!(!matches_filter(&p, "strategies drifting"));
    assert!(!matches_filter(&p, "spiking"));
    assert!(matches_filter(&paper("ÉTUDE"), "étude"));
    let mut q = paper("a b");
    q.abstract_cn = text("c d");
    assert!(!matches_filter(&q, "b c"));
    assert!(matches_filter(&q, "A B"));
    assert!(matches_filter(&q, "C"));
    assert!(holds("abc", "bc"));
    assert!(!holds("ABC", "bc"));
    let kept = filter_papers(vec![paper("A one"), paper("B"), paper("two a")], "a");
    assert_eq!(kept.len(), 2);
    assert_eq!(kept[1].title(), "two a");
}

#[test]
fn texts_are_shortened() {
    assert_eq!(truncate("a\nb", 0), "a b");
    assert_eq!(truncate("abc", 3), "abc");
    assert_eq!(truncate("ab\nd", 3), "ab …");
    assert_eq!(fmt_date(&text("2026-01-02T03:04:05Z")), "2026-01-02");
    assert_eq!(fmt_date(&text("2026")), "2026");
    assert_eq!(fmt_date(&None), "");
}

#[test]
fn results_are_written_out() {
    let mut p = paper("T");
    p.publish_date = text("2025-06-01T00:00:00");
    p.star = "4.5".to_string();
    p.authors = text("X, Y");
    p.pdf_url = text("http://p");
    p.code_link = text("http://c");
    p.abstract_en = text("long text");
    let q = Query { query: "es".to_string(), num: 20, page: 2, pages: 3, abs_len: 4 };
    assert_eq!(
        render_text(&vec![p, paper("U")], &q),
        "检索 \"es\"（页 2..4，每页 20）——命中 2 条\n\n[1] T（2025-06-01，★4.5）\n    作者: X, Y\n    链接: http://p\n    代码: http://c\n    摘要: long…\n\n[2] U（，★0.0）\n\n"
    );
    let many = Query { query: "es".to_string(), num: 500, page: 0, pages: 1, abs_len: 0 };
    assert_eq!(render_text(&vec![], &many), "检索 \"es\"（页 0..0，每页 500）——命中 0 条\n\n");
}
