//! Search results of papers: which are kept and how they are written out.

use crate::text;
use crate::text::{chars_of, push_all, push_decimal, push_text, string_of};
use vstd::prelude::*;

verus! {

/// A paper. The score is kept as it is written.
pub struct Paper {
    pub id: Option<i64>,
    pub title: Option<String>,
    pub recommended_title: Option<String>,
    pub abstract_cn: Option<String>,
    pub abstract_en: Option<String>,
    pub authors: Option<String>,
    pub publish_date: Option<String>,
    pub arxiv_id: Option<String>,
    pub arxiv_url: Option<String>,
    pub pdf_url: Option<String>,
    pub code_link: Option<String>,
    pub star: String,
}

/// What was asked for.
pub struct Query {
    pub query: String,
    /// Papers of a page.
    pub num: u32,
    /// The first page.
    pub page: u32,
    /// How many pages.
    pub pages: u32,
    /// Characters of an abstract that are shown; 0 for all.
    pub abs_len: usize,
}

/// Why a query is refused.
#[derive(Clone, Copy, Debug, PartialEq, Eq, Structural)]
pub enum QueryError {
    /// A page has between 1 and 100 papers.
    Num,
    /// At least one page is asked for.
    Pages,
    /// Page numbers are too great.
    Page,
}

/// Why an answer is refused.
#[derive(Clone, Copy, Debug, PartialEq, Eq, Structural)]
pub enum AnswerError {
    /// The service reports an error.
    Rejected,
    /// The answer holds no data.
    NoData,
}

/// What is wrong with a query.
pub open spec fn query_error(num: u32, page: u32, pages: u32) -> Option<QueryError> {
    if num == 0 || num > 100 {
        Some(QueryError::Num)
    } else if pages == 0 {
        Some(QueryError::Pages)
    } else if page + pages - 1 > u32::MAX {
        Some(QueryError::Page)
    } else {
        None
    }
}

/// Checks a query.
pub fn check_query(num: u32, page: u32, pages: u32) -> (r: Result<(), QueryError>)
    ensures
        match r {
            Ok(_) => query_error(num, page, pages) is None,
            Err(e) => query_error(num, page, pages) == Some(e),
        },
{
    if num == 0 || num > 100 {
        return Err(QueryError::Num);
    }
    if pages == 0 {
        return Err(QueryError::Pages);
    }
    if pages - 1 > u32::MAX - page {
        return Err(QueryError::Page);
    }
    Ok(())
}

/// The numbers of the pages that are fetched, in order.
pub fn page_numbers(page: u32, pages: u32) -> (r: Vec<u32>)
    requires
        pages >= 1,
        page + pages - 1 <= u32::MAX,
    ensures
        r@.len() == pages,
        forall|k: int| 0 <= k < pages ==> #[trigger] r@[k] == page + k,
{
    let mut r: Vec<u32> = Vec::new();
    let mut k: u32 = 0;
    while k < pages
        invariant
            k <= pages,
            page + pages - 1 <= u32::MAX,
            r@.len() == k,
            forall|j: int| 0 <= j < k ==> #[trigger] r@[j] == page + j,
        decreases pages - k,
    {
        r.push(page + k);
        k += 1;
    }
    r
}

/// The data of an answer. The service may say with a code that all is well.
pub open spec fn accepted<D>(http_ok: bool, code: i32, data: Option<D>) -> Result<D, AnswerError> {
    if !http_ok || (code != 0 && code != 200) {
        Err(AnswerError::Rejected)
    } else {
        match data {
            Some(d) => Ok(d),
            None => Err(AnswerError::NoData),
        }
    }
}

/// Takes the data out of an answer. The service may say with a code that all is well.
pub fn accept<D>(http_ok: bool, code: i32, data: Option<D>) -> (r: Result<D, AnswerError>)
    ensures
        r == accepted(http_ok, code, data),
{
    if !http_ok || (code != 0 && code != 200) {
        return Err(AnswerError::Rejected);
    }
    match data {
        Some(d) => Ok(d),
        None => Err(AnswerError::NoData),
    }
}

/// The number of all hits: that of the first page that gives one.
pub open spec fn total_after(so_far: Option<u64>, next: Option<u64>) -> Option<u64> {
    if so_far is Some {
        so_far
    } else {
        next
    }
}

/// The number of all hits: that of the first page that gives one.
pub fn first_total(so_far: Option<u64>, next: Option<u64>) -> (r: Option<u64>)
    ensures
        r == total_after(so_far, next),
{
    match so_far {
        Some(n) => Some(n),
        None => next,
    }
}

/// A text, unless it is missing or empty.
pub open spec fn filled(s: Option<String>) -> Option<Seq<char>> {
    match s {
        Some(t) => if t@.len() > 0 {
            Some(t@)
        } else {
            None
        },
        None => None,
    }
}

/// A text, unless it is missing or empty.
fn filled_text(s: &Option<String>) -> (r: Option<&str>)
    ensures
        match r {
            Some(t) => filled(*s) == Some(t@),
            None => filled(*s) is None,
        },
{
    match s {
        Some(t) => {
            let c = chars_of(t.as_str());
            if c.len() > 0 {
                Some(t.as_str())
            } else {
                None
            }
        }
        None => None,
    }
}

/// The first of two texts that is there.
pub open spec fn either(a: Option<Seq<char>>, b: Option<Seq<char>>) -> Option<Seq<char>> {
    if a is Some {
        a
    } else {
        b
    }
}

impl Paper {
    /// The title, else the recommended one, else words for a missing title.
    pub open spec fn title_of(self) -> Seq<char> {
        match filled(self.title) {
            Some(t) => t,
            None => match self.recommended_title {
                Some(t) => t@,
                None => "(无标题)"@,
            },
        }
    }

    /// The abstract, in Chinese if there is one.
    pub open spec fn abstract_of(self) -> Option<Seq<char>> {
        either(filled(self.abstract_cn), filled(self.abstract_en))
    }

    /// The page of the paper, else its document.
    pub open spec fn link_of(self) -> Option<Seq<char>> {
        either(filled(self.arxiv_url), filled(self.pdf_url))
    }

    /// The title.
    pub fn title(&self) -> (r: &str)
        ensures
            r@ == self.title_of(),
    {
        match filled_text(&self.title) {
            Some(t) => t,
            None => match &self.recommended_title {
                Some(t) => t.as_str(),
                None => "(无标题)",
            },
        }
    }

    /// The abstract.
    pub fn abstract_text(&self) -> (r: Option<&str>)
        ensures
            match r {
                Some(t) => self.abstract_of() == Some(t@),
                None => self.abstract_of() is None,
            },
    {
        match filled_text(&self.abstract_cn) {
            Some(t) => Some(t),
            None => filled_text(&self.abstract_en),
        }
    }

    /// The link.
    pub fn link(&self) -> (r: Option<&str>)
        ensures
            match r {
                Some(t) => self.link_of() == Some(t@),
                None => self.link_of() is None,
            },
    {
        match filled_text(&self.arxiv_url) {
            Some(t) => Some(t),
            None => filled_text(&self.pdf_url),
        }
    }
}

/// A text in lower case, as `str::to_lowercase` gives it.
pub uninterp spec fn lower(s: Seq<char>) -> Seq<char>;

/// `str::to_lowercase`: the lower case of a text by the Unicode properties of its characters.
/// It depends on the text alone; which characters it gives is not said here.
#[verifier::external_body]
fn to_lower(s: &str) -> (r: String)
    ensures
        r@ == lower(s@),
{
    s.to_lowercase()
}

/// Whether one text holds another.
pub fn holds(hay: &str, word: &str) -> (r: bool)
    ensures
        r == text::contains(hay@, word@),
{
    let h = chars_of(hay);
    let w = chars_of(word);
    match text::find(h.as_slice(), w.as_slice()) {
        Some(_) => true,
        None => false,
    }
}

/// Whether the title or the abstract of a paper holds a word, whatever the case of letters.
pub open spec fn matches_word(p: Paper, word: Seq<char>) -> bool {
    ||| text::contains(lower(p.title_of()), lower(word))
    ||| (p.abstract_of() matches Some(a) && text::contains(lower(a), lower(word)))
}

/// Whether the title or the abstract of a paper holds a word, whatever the case of letters.
pub fn matches_filter(p: &Paper, word: &str) -> (r: bool)
    ensures
        r == matches_word(*p, word@),
{
    let low = to_lower(word);
    let title = to_lower(p.title());
    if holds(title.as_str(), low.as_str()) {
        return true;
    }
    match p.abstract_text() {
        Some(a) => {
            let text = to_lower(a);
            holds(text.as_str(), low.as_str())
        },
        None => false,
    }
}

/// The papers among the first `n` that hold a word, in order.
pub open spec fn kept(papers: Seq<Paper>, word: Seq<char>, n: int) -> Seq<Paper>
    decreases n,
{
    if n <= 0 {
        Seq::empty()
    } else {
        let rest = kept(papers, word, n - 1);
        if matches_word(papers[n - 1], word) {
            rest.push(papers[n - 1])
        } else {
            rest
        }
    }
}

/// Keeps the papers that hold a word.
pub fn filter_papers(papers: Vec<Paper>, word: &str) -> (r: Vec<Paper>)
    ensures
        r@ == kept(papers@, word@, papers@.len() as int),
{
    let mut r: Vec<Paper> = Vec::new();
    for p in it: papers
        invariant
            it.seq() == papers@,
            r@ == kept(papers@, word@, it.index()),
    {
        if matches_filter(&p, word) {
            r.push(p);
        }
    }
    r
}

/// Every paper that is kept holds the word, and every one that holds it is kept.
pub proof fn kept_are_matches(papers: Seq<Paper>, word: Seq<char>, n: int, p: Paper)
    requires
        0 <= n <= papers.len(),
    ensures
        kept(papers, word, n).contains(p) <==> papers.take(n).contains(p) && matches_word(p, word),
    decreases n,
{
    if n > 0 {
        kept_are_matches(papers, word, n - 1, p);
        let rest = kept(papers, word, n - 1);
        let all = kept(papers, word, n);
        let a = papers.take(n - 1);
        let b = papers.take(n);
        assert(b =~= a.push(papers[n - 1]));
        assert(b.contains(p) <==> a.contains(p) || p == papers[n - 1]) by {
            if a.contains(p) {
                let i = choose|i: int| 0 <= i < a.len() && a[i] == p;
                assert(b[i] == p);
            }
            assert(b[n - 1] == papers[n - 1]);
        }
        if matches_word(papers[n - 1], word) {
            assert(all.contains(p) <==> rest.contains(p) || p == papers[n - 1]) by {
                if rest.contains(p) {
                    let i = choose|i: int| 0 <= i < rest.len() && rest[i] == p;
                    assert(all[i] == p);
                }
                assert(all[rest.len() as int] == papers[n - 1]);
            }
        }
    }
}

/// A text on one line: a blank for each line feed.
pub open spec fn one_line(s: Seq<char>) -> Seq<char> {
    s.map_values(
        |c: char|
            if c == '\n' {
                ' '
            } else {
                c
            },
    )
}

/// The first `max` characters on one line, with an ellipsis if there are more; all of them for 0.
pub open spec fn truncated(s: Seq<char>, max: int) -> Seq<char> {
    if max == 0 || s.len() <= max {
        one_line(s)
    } else {
        one_line(s.take(max)) + "…"@
    }
}

/// The first `n` characters on one line.
fn on_one_line(s: &Vec<char>, n: usize) -> (r: Vec<char>)
    requires
        n <= s@.len(),
    ensures
        r@ == one_line(s@.take(n as int)),
{
    let mut r: Vec<char> = Vec::new();
    let mut i: usize = 0;
    while i < n
        invariant
            i <= n <= s@.len(),
            r@ == one_line(s@.take(i as int)),
        decreases n - i,
    {
        let c: char = s[i];
        r.push(
            if c == '\n' {
                ' '
            } else {
                c
            },
        );
        i += 1;
        assert(r@ =~= one_line(s@.take(i as int)));
    }
    r
}

/// The first `max` characters on one line, as a list.
fn truncate_chars(s: &str, max: usize) -> (r: Vec<char>)
    ensures
        r@ == truncated(s@, max as int),
{
    let c = chars_of(s);
    if max == 0 || c.len() <= max {
        assert(c@.take(c@.len() as int) =~= c@);
        on_one_line(&c, c.len())
    } else {
        let mut r = on_one_line(&c, max);
        push_text(&mut r, "…");
        r
    }
}

/// The first `max` characters on one line, with an ellipsis if there are more; all of them for 0.
pub fn truncate(s: &str, max: usize) -> (r: String)
    ensures
        r@ == truncated(s@, max as int),
{
    let c = truncate_chars(s, max);
    string_of(c.as_slice())
}

/// A shortened text has no line feeds and, with a limit, at most one character more than that.
pub proof fn truncated_is_short(s: Seq<char>, max: int, i: int)
    requires
        0 <= max,
    ensures
        max > 0 ==> truncated(s, max).len() <= max + 1,
        0 <= i < truncated(s, max).len() ==> truncated(s, max)[i] != '\n',
{
    reveal_strlit("…");
    assert("…"@.len() == 1);
    assert("…"@[0] != '\n');
}

/// The day of a date: what stands before the time.
pub open spec fn day_of(d: Option<String>) -> Seq<char> {
    match d {
        Some(s) => text::split(s@, 'T')[0],
        None => Seq::empty(),
    }
}

/// The day of a date.
fn day_chars(d: &Option<String>) -> (r: Vec<char>)
    ensures
        r@ == day_of(*d),
{
    match d {
        Some(s) => {
            let c = chars_of(s.as_str());
            let parts = text::split_at(c.as_slice(), 'T');
            assert(parts@[0]@ == text::views(parts@)[0]);
            let n: usize = parts[0].len();
            text::part(parts[0].as_slice(), 0, n)
        }
        None => Vec::new(),
    }
}

/// The day of a date.
pub fn fmt_date(d: &Option<String>) -> (r: String)
    ensures
        r@ == day_of(*d),
{
    let c = day_chars(d);
    string_of(c.as_slice())
}

/// A line with a label, or nothing.
pub open spec fn labelled(label: Seq<char>, s: Option<Seq<char>>) -> Seq<char> {
    match s {
        Some(t) => label + t + "\n"@,
        None => Seq::empty(),
    }
}

/// A shortened text, if there is one.
pub open spec fn shortened(s: Option<Seq<char>>, max: int) -> Option<Seq<char>> {
    match s {
        Some(t) => Some(truncated(t, max)),
        None => None,
    }
}

/// How a paper is written out under a number.
pub open spec fn item_text(p: Paper, i: int, abs_len: int) -> Seq<char> {
    "["@ + text::decimal(i as nat) + "] "@ + p.title_of() + "（"@ + day_of(p.publish_date) + "，★"@
        + p.star@ + "）\n"@ + labelled("    作者: "@, shortened(filled(p.authors), 90)) + labelled(
        "    链接: "@,
        p.link_of(),
    ) + labelled("    代码: "@, filled(p.code_link)) + labelled(
        "    摘要: "@,
        shortened(p.abstract_of(), abs_len),
    ) + "\n"@
}

/// The first lines: what was asked for and how many papers there are.
pub open spec fn heading(q: Query, n: int) -> Seq<char> {
    "检索 \""@ + q.query@ + "\"（页 "@ + text::decimal(q.page as nat) + ".."@ + text::decimal(
        (q.page + q.pages - 1) as nat,
    ) + "，每页 "@ + text::decimal(q.num as nat) + "）——命中 "@ + text::decimal(n as nat)
        + " 条\n\n"@
}

/// The heading and the first `n` papers.
pub open spec fn listing(papers: Seq<Paper>, q: Query, n: int) -> Seq<char>
    decreases n,
{
    if n <= 0 {
        heading(q, papers.len() as int)
    } else {
        listing(papers, q, n - 1) + item_text(papers[n - 1], n, q.abs_len as int)
    }
}

/// Appends a line with a label, or nothing.
fn push_labelled(s: &mut Vec<char>, label: &str, t: Option<&[char]>)
    ensures
        final(s)@ == old(s)@ + labelled(
            label@,
            match t {
                Some(c) => Some(c@),
                None => None,
            },
        ),
{
    let ghost before = s@;
    match t {
        Some(c) => {
            push_text(s, label);
            push_all(s, c);
            push_text(s, "\n");
            assert(s@ =~= before + (label@ + c@ + "\n"@));
        }
        None => {
            assert(s@ =~= before + Seq::<char>::empty());
        }
    }
}

/// Characters of a text, if there is one.
fn chars_if(t: Option<&str>) -> (r: Option<Vec<char>>)
    ensures
        match (t, r) {
            (Some(a), Some(b)) => a@ == b@,
            (None, None) => true,
            _ => false,
        },
{
    match t {
        Some(a) => Some(chars_of(a)),
        None => None,
    }
}

/// Characters of a shortened text, if there is one.
fn short_if(t: Option<&str>, max: usize) -> (r: Option<Vec<char>>)
    ensures
        match (t, r) {
            (Some(a), Some(b)) => truncated(a@, max as int) == b@,
            (None, None) => true,
            _ => false,
        },
{
    match t {
        Some(a) => Some(truncate_chars(a, max)),
        None => None,
    }
}

/// Appends a line with a label for a list of characters, or nothing.
fn push_field(s: &mut Vec<char>, label: &str, t: &Option<Vec<char>>)
    ensures
        final(s)@ == old(s)@ + labelled(
            label@,
            match *t {
                Some(c) => Some(c@),
                None => None,
            },
        ),
{
    match t {
        Some(c) => {
            push_labelled(s, label, Some(c.as_slice()));
        }
        None => {
            push_labelled(s, label, None);
        }
    }
}

/// How a paper is written out under a number.
fn item_chars(p: &Paper, i: usize, abs_len: usize) -> (s: Vec<char>)
    ensures
        s@ == item_text(*p, i as int, abs_len as int),
{
    let mut s = chars_of("[");
    push_decimal(&mut s, i as u64);
    push_text(&mut s, "] ");
    push_text(&mut s, p.title());
    push_text(&mut s, "（");
    push_all(&mut s, day_chars(&p.publish_date).as_slice());
    push_text(&mut s, "，★");
    push_text(&mut s, p.star.as_str());
    push_text(&mut s, "）\n");
    push_field(&mut s, "    作者: ", &short_if(filled_text(&p.authors), 90));
    push_field(&mut s, "    链接: ", &chars_if(p.link()));
    push_field(&mut s, "    代码: ", &chars_if(filled_text(&p.code_link)));
    push_field(&mut s, "    摘要: ", &short_if(p.abstract_text(), abs_len));
    push_text(&mut s, "\n");
    s
}

/// Writes out papers.
pub fn render_text(papers: &Vec<Paper>, q: &Query) -> (r: String)
    requires
        q.pages >= 1,
        q.page + q.pages - 1 <= u32::MAX,
    ensures
        r@ == listing(papers@, *q, papers@.len() as int),
{
    let mut s = chars_of("检索 \"");
    push_text(&mut s, q.query.as_str());
    push_text(&mut s, "\"（页 ");
    push_decimal(&mut s, q.page as u64);
    push_text(&mut s, "..");
    push_decimal(&mut s, (q.page + (q.pages - 1)) as u64);
    push_text(&mut s, "，每页 ");
    push_decimal(&mut s, q.num as u64);
    push_text(&mut s, "）——命中 ");
    push_decimal(&mut s, papers.len() as u64);
    push_text(&mut s, " 条\n\n");
    let mut i: usize = 0;
    while i < papers.len()
        invariant
            i <= papers@.len(),
            s@ == listing(papers@, *q, i as int),
        decreases papers@.len() - i,
    {
        let t = item_chars(&papers[i], i + 1, q.abs_len);
        push_all(&mut s, t.as_slice());
        i += 1;
    }
    string_of(s.as_slice())
}

/// A query is taken exactly if a page has between 1 and 100 papers, there is a page, and the last
/// page still has a number. What is wrong is named in that order.
pub proof fn queries_are_taken_if(num: u32, page: u32, pages: u32)
    ensures
        query_error(num, page, pages) is None <==> 1 <= num <= 100 && 1 <= pages && page + pages
            <= 0x1_0000_0000,
        query_error(num, page, pages) == Some(QueryError::Num) <==> num < 1 || num > 100,
        query_error(num, page, pages) == Some(QueryError::Pages) <==> 1 <= num <= 100 && pages == 0,
        query_error(num, page, pages) == Some(QueryError::Page) <==> 1 <= num <= 100 && 1 <= pages
            && page + pages > 0x1_0000_0000,
{
}

/// An answer gives its data exactly if the transfer went well, the service's code is nothing or
/// 200, and there are data; without data the answer is empty, and otherwise refused.
pub proof fn answers_are_taken_if<D>(http_ok: bool, code: i32, data: Option<D>)
    ensures
        ({
            let well = http_ok && (code == 0 || code == 200);
            let r = accepted(http_ok, code, data);
            &&& r is Ok <==> well && data is Some
            &&& r is Ok ==> Some(r->Ok_0) == data
            &&& r == Err::<D, AnswerError>(AnswerError::Rejected) <==> !well
            &&& r == Err::<D, AnswerError>(AnswerError::NoData) <==> well && data is None
        }),
{
}

/// The number of hits is the first that any page gave: later pages do not change it.
pub proof fn first_total_stays(a: Option<u64>, b: Option<u64>, c: Option<u64>)
    ensures
        total_after(None, a) == a,
        total_after(total_after(a, b), c) == total_after(a, total_after(b, c)),
        a is Some ==> total_after(a, b) == a,
{
}

/// Which of a paper's texts is shown. The title comes before the recommended one, the Chinese
/// abstract before the English, and the page of the paper before its file; an empty text counts as
/// none, but for the recommended title.
pub proof fn texts_are_preferred(p: Paper, a: String, b: String)
    ensures
        p.title == Some(a) && a@.len() > 0 ==> p.title_of() == a@,
        (p.title is None || p.title->0@.len() == 0) && p.recommended_title == Some(b)
            ==> p.title_of() == b@,
        (p.title is None || p.title->0@.len() == 0) && p.recommended_title is None ==> p.title_of()
            == "(无标题)"@,
        p.abstract_cn == Some(a) && a@.len() > 0 ==> p.abstract_of() == Some(a@),
        (p.abstract_cn is None || p.abstract_cn->0@.len() == 0) && p.abstract_en == Some(b)
            && b@.len() > 0 ==> p.abstract_of() == Some(b@),
        p.abstract_of() is None <==> (p.abstract_cn is None || p.abstract_cn->0@.len() == 0) && (
        p.abstract_en is None || p.abstract_en->0@.len() == 0),
        p.arxiv_url == Some(a) && a@.len() > 0 ==> p.link_of() == Some(a@),
        (p.arxiv_url is None || p.arxiv_url->0@.len() == 0) && p.pdf_url == Some(b) && b@.len() > 0
            ==> p.link_of() == Some(b@),
        p.link_of() is None <==> (p.arxiv_url is None || p.arxiv_url->0@.len() == 0) && (p.pdf_url
            is None || p.pdf_url->0@.len() == 0),
{
}

/// A paper matches a word exactly if its title or its abstract holds it, upper and lower case
/// being the same.
pub proof fn words_are_looked_for_in_title_and_abstract(p: Paper, word: Seq<char>)
    ensures
        text::contains(lower(p.title_of()), lower(word)) ==> matches_word(p, word),
        p.abstract_of() is Some && text::contains(lower(p.abstract_of()->0), lower(word))
            ==> matches_word(p, word),
        p.abstract_of() is None && matches_word(p, word) ==> text::contains(
            lower(p.title_of()),
            lower(word),
        ),
        !text::contains(lower(p.title_of()), lower(word)) && matches_word(p, word)
            ==> p.abstract_of() is Some,
{
}

/// The entry of a paper: its number, title, day and score on the first line, then a line each for
/// authors, link, code and abstract where there are any, and an empty line.
pub proof fn entries_in_full(p: Paper, i: int, abs_len: int)
    ensures
        ({
            let first = "["@ + text::decimal(i as nat) + "] "@ + p.title_of() + "（"@ + day_of(
                p.publish_date,
            ) + "，★"@ + p.star@ + "）\n"@;
            let authors = match filled(p.authors) {
                Some(a) => "    作者: "@ + truncated(a, 90) + "\n"@,
                None => Seq::empty(),
            };
            let link = match p.link_of() {
                Some(l) => "    链接: "@ + l + "\n"@,
                None => Seq::empty(),
            };
            let code = match filled(p.code_link) {
                Some(c) => "    代码: "@ + c + "\n"@,
                None => Seq::empty(),
            };
            let summary = match p.abstract_of() {
                Some(a) => "    摘要: "@ + truncated(a, abs_len) + "\n"@,
                None => Seq::empty(),
            };
            item_text(p, i, abs_len) == first + authors + link + code + summary + "\n"@
        }),
{
}

/// The list of papers: a heading with the words, the pages, the papers of a page and the number of
/// hits, then the entries, numbered from 1.
pub proof fn lists_in_full(papers: Seq<Paper>, q: Query, n: int)
    requires
        0 <= n < papers.len(),
        q.pages >= 1,
    ensures
        listing(papers, q, 0) == "检索 \""@ + q.query@ + "\"（页 "@ + text::decimal(q.page as nat)
            + ".."@ + text::decimal((q.page + q.pages - 1) as nat) + "，每页 "@ + text::decimal(
            q.num as nat,
        ) + "）——命中 "@ + text::decimal(papers.len()) + " 条\n\n"@,
        listing(papers, q, n + 1) == listing(papers, q, n) + item_text(
            papers[n],
            n + 1,
            q.abs_len as int,
        ),
{
}

/// The day of a date is what stands before the time: it holds no `T`, and the date goes on with
/// one or ends there.
pub proof fn days_have_no_time(d: String)
    ensures
        ({
            let day = day_of(Some(d));
            &&& day.len() <= d@.len()
            &&& day == d@.take(day.len() as int)
            &&& forall|i: int| 0 <= i < day.len() ==> (#[trigger] day[i]) != 'T'
            &&& day.len() < d@.len() ==> d@[day.len() as int] == 'T'
        }),
        day_of(None) == Seq::<char>::empty(),
{
    first_piece(d@, 'T');
}

proof fn first_piece(s: Seq<char>, c: char)
    ensures
        ({
            let p = text::split(s, c);
            let f = p[0];
            &&& p.len() >= 1
            &&& f.len() <= s.len()
            &&& f == s.take(f.len() as int)
            &&& forall|i: int| 0 <= i < f.len() ==> (#[trigger] f[i]) != c
            &&& f.len() < s.len() ==> s[f.len() as int] == c
            &&& p.len() == 1 <==> f.len() == s.len()
        }),
    decreases s.len(),
{
    if s.len() > 0 {
        let front = s.drop_last();
        first_piece(front, c);
        let p = text::split(front, c);
        let f = p[0];
        let r = text::split(s, c);
        if s.last() == c {
            assert(r[0] == f);
            assert(f =~= s.take(f.len() as int));
        } else if p.len() > 1 {
            assert(r[0] == f);
            assert(f =~= s.take(f.len() as int));
        } else {
            assert(r[0] == f.push(s.last()));
            assert(r[0] =~= s);
            assert(s.take(s.len() as int) =~= s);
        }
    }
}

/// A text within its limit, or without one, is shown whole; a longer one is cut behind as many
/// characters as the limit says and goes on with an ellipsis. Line feeds become blanks, and no
/// other character changes.
pub proof fn texts_are_cut_at_the_limit(s: Seq<char>, max: int, i: int)
    requires
        0 <= max,
    ensures
        max == 0 || s.len() <= max ==> truncated(s, max).len() == s.len(),
        0 < max < s.len() ==> truncated(s, max).len() == max + 1 && truncated(s, max)[max] == '…',
        0 <= i < s.len() && (i < max || max == 0) ==> truncated(s, max)[i] == if s[i] == '\n' {
            ' '
        } else {
            s[i]
        },
{
    reveal_strlit("…");
    assert("…"@.len() == 1);
    assert("…"@[0] == '…');
}

/// Filtering keeps the order: one more paper is added behind those that are kept if it matches, and
/// changes nothing if it does not.
pub proof fn filtering_keeps_the_order(papers: Seq<Paper>, word: Seq<char>, n: int)
    requires
        0 <= n < papers.len(),
    ensures
        kept(papers, word, 0) == Seq::<Paper>::empty(),
        matches_word(papers[n], word) ==> kept(papers, word, n + 1) == kept(papers, word, n).push(
            papers[n],
        ),
        !matches_word(papers[n], word) ==> kept(papers, word, n + 1) == kept(papers, word, n),
{
}

} // verus!
