//! Display width, in terminal columns, as `unicode-width` measures it.

use unicode_width::{UnicodeWidthChar, UnicodeWidthStr};
use vstd::prelude::*;

verus! {

/// What `UnicodeWidthChar::width` answers for `c`.
pub uninterp spec fn char_width(c: char) -> Option<usize>;

/// What `UnicodeWidthStr::width` answers for a string holding `s`.
pub uninterp spec fn str_width(s: Seq<char>) -> usize;

/// `UnicodeWidthChar::width` (unicode-width 0.2). Its source states outright that the
/// printable ASCII range `' '..'\u{7f}'` is one column wide and that the control ranges below
/// `' '` and from `'\u{7f}'` to `'\u{a0}'` have no width (`None`); everything from `'\u{a0}'` on
/// comes from a lookup table whose entries are at most three columns. That table follows
/// UAX #11 with ambiguous characters counted narrow, as the crate documents, so the Box Drawing
/// block `'\u{2500}'..='\u{257f}'` — ambiguous or neutral there, none of it zero-width — is
/// one column. Which width any other non-ASCII character gets is left to the name
/// `char_width`.
#[verifier::external_body]
pub fn width_of_char(c: char) -> (w: Option<usize>)
    ensures
        w == char_width(c),
        (c < '\u{20}' || ('\u{7f}' <= c && c < '\u{a0}')) ==> w == None::<usize>,
        ('\u{20}' <= c && c < '\u{7f}') ==> w == Some(1usize),
        '\u{a0}' <= c ==> (w is Some && w.unwrap() <= 3),
        ('\u{2500}' <= c && c <= '\u{257f}') ==> w == Some(1usize),
{
    c.width()
}

/// `UnicodeWidthStr::width` (unicode-width 0.2). Its source sums a width per character from
/// the end of the string, and every character up to `'\u{a0}'` adds exactly one column except a
/// `'\r'` directly before a `'\n'`; so a string of such characters without `'\r'` is as wide as
/// it is long. The width of anything else, with its emoji and script ligatures, is left to the
/// name `str_width`.
#[verifier::external_body]
pub fn width_of_str(s: &str) -> (w: usize)
    ensures
        w == str_width(s@),
        (forall|k: int| 0 <= k < s@.len() ==> #[trigger] s@[k] <= '\u{a0}' && s@[k] != '\r') ==> w
            == s@.len(),
{
    s.width()
}

/// Columns a character takes when laid out one at a time: no width counts as none.
pub open spec fn cols(c: char) -> int {
    match char_width(c) {
        Some(w) => w as int,
        None => 0,
    }
}

/// Columns a run of characters takes when laid out one at a time.
pub open spec fn cols_sum(s: Seq<char>) -> int
    decreases s.len(),
{
    if s.len() == 0 {
        0
    } else {
        cols_sum(s.drop_last()) + cols(s.last())
    }
}

/// Columns of a run laid out one at a time, held at the top of `usize`.
pub open spec fn cols_held(s: Seq<char>) -> int {
    if cols_sum(s) > usize::MAX {
        usize::MAX as int
    } else {
        cols_sum(s)
    }
}

pub proof fn lemma_cols_sum_concat(a: Seq<char>, b: Seq<char>)
    ensures
        cols_sum(a + b) == cols_sum(a) + cols_sum(b),
        cols_sum(b) >= 0,
    decreases b.len(),
{
    if b.len() == 0 {
        assert(a + b =~= a);
    } else {
        lemma_cols_sum_concat(a, b.drop_last());
        assert((a + b).drop_last() =~= a + b.drop_last());
        assert((a + b).last() == b.last());
    }
}

/// Columns `chars` take laid out one character at a time, each measured by `unicode-width`.
pub fn cols_total(chars: &[char]) -> (n: usize)
    ensures
        n == cols_held(chars@),
{
    let mut n: usize = 0;
    let mut i: usize = 0;
    while i < chars.len()
        invariant
            i <= chars@.len(),
            n == cols_held(chars@.take(i as int)),
        decreases chars.len() - i,
    {
        let c = chars[i];
        proof {
            assert(chars@.take(i + 1).drop_last() =~= chars@.take(i as int));
            assert(chars@.take(i + 1).last() == c);
            lemma_cols_sum_concat(Seq::<char>::empty(), chars@.take(i as int));
        }
        n = n.saturating_add(cols_of(c));
        i = i + 1;
    }
    assert(chars@.take(chars@.len() as int) =~= chars@);
    n
}

/// Columns `s` takes laid out one character at a time, held at the top of `usize`.
pub fn cols_of_str(s: &str) -> (n: usize)
    ensures
        n == cols_held(s@),
{
    let chars = crate::text::chars_of(s);
    cols_total(chars.as_slice())
}

pub fn cols_of(c: char) -> (w: usize)
    ensures
        w == cols(c),
        w <= usize::MAX,
{
    match width_of_char(c) {
        Some(w) => w,
        None => 0,
    }
}

} // verus!
