//! Paging through the destination network's list of followed accounts: the
//! server announces a further page in the response's `Link` header.

use vstd::prelude::*;

verus! {

/// `needle` occurs in `text`.
pub open spec fn contains_text(text: Seq<char>, needle: Seq<char>) -> bool {
    exists|i: int|
        0 <= i && i + needle.len() <= text.len() && #[trigger] text.subrange(i, i + needle.len())
            == needle
}

/// Whether `needle` occurs in `text` at position `at`.
fn occurs_at(text: &str, needle: &str, at: usize, n: usize) -> (r: bool)
    requires
        n == text@.len(),
        at + needle@.len() <= n,
    ensures
        r == (text@.subrange(at as int, at + needle@.len()) == needle@),
{
    let m = needle.unicode_len();
    let mut k: usize = 0;
    while k < m
        invariant
            k <= m,
            m == needle@.len(),
            n == text@.len(),
            at + m <= n,
            forall|j: int| 0 <= j < k ==> text@[at + j] == needle@[j],
        decreases m - k,
    {
        if text.get_char(at + k) != needle.get_char(k) {
            assert(text@.subrange(at as int, at + m)[k as int] != needle@[k as int]);
            return false;
        }
        k += 1;
    }
    assert(text@.subrange(at as int, at + m) =~= needle@);
    true
}

/// Whether `needle` occurs in `text`.
pub fn find_text(text: &str, needle: &str) -> (r: bool)
    ensures
        r == contains_text(text@, needle@),
{
    let n = text.unicode_len();
    let m = needle.unicode_len();
    if m > n {
        return false;
    }
    if m == 0 {
        assert(text@.subrange(0, 0 + needle@.len() as int) =~= needle@);
        return true;
    }
    let mut at: usize = 0;
    while at <= n - m
        invariant
            n == text@.len(),
            m == needle@.len(),
            0 < m <= n,
            at <= n - m + 1,
            forall|i: int|
                0 <= i < at ==> #[trigger] text@.subrange(i, i + m) != needle@,
        decreases n - m + 1 - at,
    {
        if occurs_at(text, needle, at, n) {
            return true;
        }
        at += 1;
    }
    false
}

/// The text that marks a further page in a `Link` header.
pub const NEXT_PAGE_MARK: &'static str = "rel=\"next\"";

/// Whether a `Link` header announces a further page.
pub fn has_next_link(link: &str) -> (r: bool)
    ensures
        r == contains_text(link@, NEXT_PAGE_MARK@),
{
    find_text(link, NEXT_PAGE_MARK)
}

} // verus!
