//! A pool written out. Amounts of memory come as texts.

use crate::text;
use crate::text::{chars_of, push_all, push_decimal, push_text, string_of};
use vstd::prelude::*;

verus! {

/// A page with its amounts written out.
pub struct PageLine {
    pub id: u64,
    pub num_slices: u64,
    pub free: String,
    pub full: String,
    pub total: String,
}

/// A page on one line.
pub open spec fn page_line(p: PageLine) -> Seq<char> {
    "   - Page "@ + text::decimal(p.id as nat) + " num_slices="@ + text::decimal(
        p.num_slices as nat,
    ) + " => "@ + p.free@ + " free - "@ + p.full@ + " full - "@ + p.total@ + " total\n"@
}

/// The heading and the first `n` pages.
pub open spec fn page_lines(
    page_size: Seq<char>,
    max_alloc: Seq<char>,
    pages: Seq<PageLine>,
    n: int,
) -> Seq<char>
    decreases n,
{
    if n <= 0 {
        " - Sliced Pool page_size="@ + page_size + " max_alloc_size="@ + max_alloc + "\n"@
    } else {
        page_lines(page_size, max_alloc, pages, n - 1) + page_line(pages[n - 1])
    }
}

/// A page on one line.
fn page_chars(p: &PageLine) -> (s: Vec<char>)
    ensures
        s@ == page_line(*p),
{
    let mut s = chars_of("   - Page ");
    push_decimal(&mut s, p.id);
    push_text(&mut s, " num_slices=");
    push_decimal(&mut s, p.num_slices);
    push_text(&mut s, " => ");
    push_text(&mut s, p.free.as_str());
    push_text(&mut s, " free - ");
    push_text(&mut s, p.full.as_str());
    push_text(&mut s, " full - ");
    push_text(&mut s, p.total.as_str());
    push_text(&mut s, " total\n");
    s
}

/// The pool written out: nothing for a pool without pages, else a heading, its pages and the
/// memory in use.
pub fn pool_text(page_size: &str, max_alloc: &str, pages: &[PageLine], usage: &str) -> (r: String)
    ensures
        r@ == if pages@.len() == 0 {
            Seq::empty()
        } else {
            page_lines(page_size@, max_alloc@, pages@, pages@.len() as int) + "\n"@ + usage@
                + "\n"@
        },
{
    if pages.len() == 0 {
        let none: Vec<char> = Vec::new();
        assert(none@ =~= Seq::empty());
        return string_of(none.as_slice());
    }
    let mut s = chars_of(" - Sliced Pool page_size=");
    push_text(&mut s, page_size);
    push_text(&mut s, " max_alloc_size=");
    push_text(&mut s, max_alloc);
    push_text(&mut s, "\n");
    let mut i: usize = 0;
    while i < pages.len()
        invariant
            i <= pages@.len(),
            s@ == page_lines(page_size@, max_alloc@, pages@, i as int),
        decreases pages@.len() - i,
    {
        push_all(&mut s, page_chars(&pages[i]).as_slice());
        i += 1;
    }
    push_text(&mut s, "\n");
    push_text(&mut s, usage);
    push_text(&mut s, "\n");
    string_of(s.as_slice())
}

/// The text of a pool by its parts: a heading with the size of pages and the greatest request, and
/// a line for each page with its number, its slices and what is free, in use and there at all.
pub proof fn pools_in_full(
    page_size: Seq<char>,
    max_alloc: Seq<char>,
    pages: Seq<PageLine>,
    n: int,
)
    requires
        0 <= n < pages.len(),
    ensures
        page_lines(page_size, max_alloc, pages, 0) == " - Sliced Pool page_size="@ + page_size
            + " max_alloc_size="@ + max_alloc + "\n"@,
        page_lines(page_size, max_alloc, pages, n + 1) == page_lines(page_size, max_alloc, pages, n)
            + ("   - Page "@ + text::decimal(pages[n].id as nat) + " num_slices="@ + text::decimal(
            pages[n].num_slices as nat,
        ) + " => "@ + pages[n].free@ + " free - "@ + pages[n].full@ + " full - "@ + pages[n].total@
            + " total\n"@),
{
}

} // verus!
