use rust_sdt::alloc_sizes::{diag_enabled, lookup, record, AllocSizes};
use rust_sdt::pool::{get_memory_usage, MemoryUsage, PageSummary, SlicedPool};
use rust_sdt::pool_report::{pool_report, PageDiag};
use rust_sdt::pool_text::{pool_text, PageLine};
use std::cell::Cell;

struct Page {
    free: u64,
    number: Cell<u16>,
}

fn page(free: u64) -> Page {
    Page { free, number: Cell::new(0) }
}

fn pool() -> SlicedPool<Page> {
    let mut p: SlicedPool<Page> = SlicedPool::new(100, 40, 8, 1);
    p.alloc_page(page(0), 10, false);
    p.alloc_page(page(100), 11, false);
    p.alloc_page(page(30), 12, false);
    p
}

#[test]
fn sizes_are_kept_only_while_diagnostics_are_on() {
    assert!(diag_enabled(Some("1")));
    assert!(!diag_enabled(Some("yes")));
    assert!(!diag_enabled(None));
    let mut r = AllocSizes::new(true);
    record(&mut r, 5, 100);
    record(&mut r, 5, 200);
    assert_eq!(lookup(&r, 5), Some(200));
    assert_eq!(lookup(&r, 6), None);
    let mut off = AllocSizes::new(false);
    record(&mut off, 5, 100);
    assert_eq!(lookup(&off, 5), None);
}

#[test]
fn requests_are_accepted_by_size() {
    let p = pool();
    assert!(p.accept(40));
    assert!(!p.accept(41));
    assert!(!p.accept(80));
    assert!(p.accept(81));
    assert!(p.accept(100));
    assert!(!p.accept(101));
}

#[test]
fn the_first_page_with_room_is_used() {
    let mut p = pool();
    let reserve = |q: &Page, size: u64| if q.free >= size { Some(q.free) } else { None };
    assert_eq!(p.try_reserve(30, &reserve), Some(100));
    assert_eq!(p.try_reserve(101, &reserve), None);
    assert_eq!(p.len(), 3);
    assert_eq!(p.find(2).free, 30);
    assert_eq!(p.next_pos(), 3);
}

#[test]
fn free_pages_are_given_back() {
    let mut p = pool();
    let summary = |q: &Page| PageSummary { amount_free: q.free, amount_total: 100 };
    let renumber = |q: &Page, n: u16| q.number.set(n);
    assert_eq!(p.cleanup(false, &summary, &renumber), Vec::<u64>::new());
    assert_eq!(p.len(), 3);
    assert_eq!(p.cleanup(true, &summary, &renumber), vec![11]);
    assert_eq!(p.len(), 2);
    assert_eq!(p.find(1).free, 30);
    assert_eq!(p.find(1).number.get(), 1);
}

#[test]
fn a_report_comes_every_hundred_pages() {
    let mut p: SlicedPool<Page> = SlicedPool::new(100, 40, 8, 1);
    let mut reports = 0;
    for i in 0..250 {
        if p.alloc_page(page(0), i, true) {
            reports += 1;
        }
    }
    assert_eq!(reports, 2);
    assert!(!p.alloc_page(page(0), 1, false));
}

#[test]
fn memory_in_use_is_added_up() {
    let a = MemoryUsage {
        number_allocs: 1,
        bytes_in_use: 10,
        bytes_padding: 2,
        bytes_reserved: 100,
    };
    let b = MemoryUsage {
        number_allocs: 3,
        bytes_in_use: 30,
        bytes_padding: 0,
        bytes_reserved: 100,
    };
    assert_eq!(
        get_memory_usage(&[a, b]),
        MemoryUsage { number_allocs: 4, bytes_in_use: 40, bytes_padding: 2, bytes_reserved: 200 }
    );
}

#[test]
fn the_report_counts_and_lists() {
    let mut reg = AllocSizes::new(true);
    record(&mut reg, 1, 64);
    record(&mut reg, 2, 32);
    record(&mut reg, 3, 64);
    let pages = [
        PageDiag { counts: [1, 2, 0, 0], pinned: vec![3, 1] },
        PageDiag { counts: [0, 1, 4, 5], pinned: vec![2, 9] },
    ];
    let r = pool_report(&pages, &reg);
    assert_eq!(r.pages, 2);
    assert_eq!(r.slices, 13);
    assert_eq!(r.counts, [1, 3, 4, 5]);
    assert_eq!(r.pinned_ids, vec![1, 2, 3, 9]);
    assert_eq!(r.pinned_sizes[0], (64, 2));
}

#[test]
fn a_pool_is_written_out() {
    let lines = [PageLine {
        id: 3,
        num_slices: 2,
        free: "1 KiB".to_string(),
        full: "2 KiB".to_string(),
        total: "3 KiB".to_string(),
    }];
    assert_eq!(
        pool_text("8 MiB", "4 MiB", &lines, "usage"),
        " - Sliced Pool page_size=8 MiB max_alloc_size=4 MiB\n   - Page 3 num_slices=2 => 1 KiB free - 2 KiB full - 3 KiB total\n\nusage\n"
    );
    assert_eq!(pool_text("8 MiB", "4 MiB", &[], "usage"), "");
}
