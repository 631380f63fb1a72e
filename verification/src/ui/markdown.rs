//! What the paint layer reads off a line before it colors it: a blockquote's rule, a fence
//! rail's language, and the fenced blocks it collects whole for the highlighter.

use vstd::prelude::*;
use vstd::string::*;

use crate::text::{chars_of, is_ws, string_of};
use crate::transcript::block::{quote_len, spec_quote_len};
use crate::transcript::markdown::{closes, fence_closes, fence_opened, open_fence};
use crate::transcript::marks::run_len;

verus! {

/// `s` with each `>` among its first `len` characters painted as `│`. One character for one
/// of the same width, so offsets and hit testing are untouched — and the quote comes from
/// the transcript, so a quoted blockquote still goes out holding `>`.
pub open spec fn ruled(s: Seq<char>, len: int) -> Seq<char> {
    Seq::new(s.len(), |i: int| if i < len && s[i] == '>' { '│' } else { s[i] })
}

/// A blockquote's `>` markers, the first `len` characters of `text`, painted as `│`.
pub fn rule(text: &str, len: usize) -> (out: String)
    ensures
        out@ == ruled(text@, len as int),
{
    let chars = chars_of(text);
    let mut out: Vec<char> = Vec::new();
    let mut i: usize = 0;
    while i < chars.len()
        invariant
            i <= chars@.len(),
            chars@ == text@,
            out@ == ruled(text@, len as int).take(i as int),
        decreases chars.len() - i,
    {
        let c = chars[i];
        out.push(if i < len && c == '>' { '│' } else { c });
        proof {
            assert(ruled(text@, len as int).take(i + 1) =~= ruled(text@, len as int).take(i as int).push(
                out@[i as int],
            ));
        }
        i = i + 1;
    }
    assert(ruled(text@, len as int).take(chars@.len() as int) =~= ruled(text@, len as int));
    string_of(&out)
}

/// A blockquote's markers painted as a rule, or `None` when the line has none. A whole
/// nested prefix counts: `> > ` reads as one rule of two bars.
pub fn quote_rule(chars: &[char]) -> (r: Option<String>)
    ensures
        spec_quote_len(chars@) == 0 ==> r is None,
        spec_quote_len(chars@) > 0 ==> r is Some && r.unwrap()@ == ruled(
            chars@,
            spec_quote_len(chars@) as int,
        ),
{
    let end = quote_len(chars);
    if end == 0 {
        return None;
    }
    let text = string_of(chars);
    Some(rule(text.as_str(), end))
}

/// Where the first run of characters other than whitespace starts, at or after `i`.
pub open spec fn skip_ws(s: Seq<char>, i: int) -> int
    decreases s.len() - i,
{
    if 0 <= i < s.len() && is_ws(s[i]) {
        skip_ws(s, i + 1)
    } else {
        i
    }
}

/// Where the run of characters other than whitespace starting at `i` ends.
pub open spec fn word_end(s: Seq<char>, i: int) -> int
    decreases s.len() - i,
{
    if 0 <= i < s.len() && !is_ws(s[i]) {
        word_end(s, i + 1)
    } else {
        i
    }
}

/// The first whitespace-separated word of `s[from..]`, empty when there is none.
pub open spec fn first_word(s: Seq<char>, from: int) -> Seq<char> {
    s.subrange(skip_ws(s, from), word_end(s, skip_ws(s, from)))
}

pub proof fn lemma_skip_ws(s: Seq<char>, i: int)
    requires
        0 <= i <= s.len(),
    ensures
        i <= skip_ws(s, i) <= s.len(),
        i <= word_end(s, i) <= s.len(),
    decreases s.len() - i,
{
    if i < s.len() {
        lemma_skip_ws(s, i + 1);
    }
}

/// The first whitespace-separated word of `chars[from..]`.
pub fn first_word_of(chars: &[char], from: usize) -> (out: Vec<char>)
    requires
        from <= chars@.len(),
    ensures
        out@ == first_word(chars@, from as int),
{
    let mut start = from;
    while start < chars.len() && crate::text::is_whitespace(chars[start])
        invariant
            from <= start <= chars@.len(),
            skip_ws(chars@, from as int) == skip_ws(chars@, start as int),
        decreases chars.len() - start,
    {
        start = start + 1;
    }
    let mut end = start;
    while end < chars.len() && !crate::text::is_whitespace(chars[end])
        invariant
            start <= end <= chars@.len(),
            skip_ws(chars@, from as int) == start,
            word_end(chars@, start as int) == word_end(chars@, end as int),
        decreases chars.len() - end,
    {
        end = end + 1;
    }
    crate::transcript::marks::slice_range(chars, start, end)
}

/// Where the run of backticks and tildes starting at `i` ends.
pub open spec fn rail_end(s: Seq<char>, i: int) -> int
    decreases s.len() - i,
{
    if 0 <= i < s.len() && (s[i] == '`' || s[i] == '~') {
        rail_end(s, i + 1)
    } else {
        i
    }
}

/// A fence rail's info string as a language: past the indent and the whole run of fence
/// characters, the first word.
pub open spec fn language_spec(rail: Seq<char>) -> Seq<char> {
    first_word(rail, rail_end(rail, run_len(rail, 0, ' ') as int))
}

/// A fence rail's info string, matched as a language by the highlighter.
pub fn language(rail: &str) -> (out: String)
    ensures
        out@ == language_spec(rail@),
{
    let chars = chars_of(rail);
    let mut i: usize = 0;
    while i < chars.len() && chars[i] == ' '
        invariant
            i <= chars@.len(),
            chars@ == rail@,
            run_len(rail@, 0, ' ') == i + run_len(rail@, i as int, ' '),
        decreases chars.len() - i,
    {
        i = i + 1;
    }
    let ghost spaces = i as int;
    assert(run_len(rail@, 0, ' ') == spaces);
    while i < chars.len() && (chars[i] == '`' || chars[i] == '~')
        invariant
            spaces <= i <= chars@.len(),
            chars@ == rail@,
            rail_end(rail@, spaces) == rail_end(rail@, i as int),
        decreases chars.len() - i,
    {
        i = i + 1;
    }
    let word = first_word_of(&chars, i);
    string_of(&word)
}

/// An open fenced block, collecting its body until the closing rail.
#[derive(Debug)]
pub struct Fence {
    /// The marker and how many of it opened the block — only a run at least this long closes.
    marker: char,
    len: usize,
    /// The fence's info string, matched as a language by the highlighter.
    lang: String,
    /// Source line the body starts on.
    start: usize,
    body: String,
}

impl View for Fence {
    type V = (char, nat, Seq<char>, usize, Seq<char>);

    closed spec fn view(&self) -> (char, nat, Seq<char>, usize, Seq<char>) {
        (self.marker, self.len as nat, self.lang@, self.start, self.body@)
    }
}

impl Fence {
    /// The fence `text` opens, if it opens one: up to three spaces, then three or more
    /// backticks or tildes, then an info string — which after backticks holds no backtick,
    /// since that is inline code. `start` is the line its body begins on.
    pub fn opened_by(text: &str, start: usize) -> (r: Option<Fence>)
        ensures
            match fence_opened(text@) {
                Some((m, n)) => r is Some && r.unwrap()@ == (m, n, first_word(
                    text@,
                    (run_len(text@, 0, ' ') + n) as int,
                ), start, Seq::<char>::empty()),
                None => r is None,
            },
    {
        let chars = chars_of(text);
        match open_fence(&chars) {
            None => None,
            Some((marker, len)) => {
                let mut spaces: usize = 0;
                while spaces < chars.len() && chars[spaces] == ' '
                    invariant
                        spaces <= chars@.len(),
                        chars@ == text@,
                        run_len(text@, 0, ' ') == spaces + run_len(text@, spaces as int, ' '),
                    decreases chars.len() - spaces,
                {
                    spaces = spaces + 1;
                }
                proof {
                    let rest = text@.skip(spaces as int);
                    assert(rest.len() > 0);
                    assert(run_len(rest, 0, marker) <= rest.len()) by {
                        crate::transcript::marks::lemma_run_len(rest, 0, marker);
                    }
                }
                let from = if spaces + len <= chars.len() { spaces + len } else { chars.len() };
                let word = first_word_of(&chars, from);
                Some(Fence { marker, len, lang: string_of(&word), start, body: String::new() })
            },
        }
    }

    /// Whether `text` is the closing rail: the same character, at least as long, alone.
    pub fn closed_by(&self, text: &str) -> (b: bool)
        ensures
            b == fence_closes(self@.0, self@.1, text@),
    {
        let chars = chars_of(text);
        closes(self.marker, self.len, &chars)
    }

    /// One more line of the body.
    pub fn push(&mut self, text: &str)
        ensures
            final(self)@ == (old(self)@.0, old(self)@.1, old(self)@.2, old(self)@.3, old(self)@.4
                + text@ + seq!['\n']),
    {
        self.body.append(text);
        self.body.push('\n');
    }

    pub fn lang(&self) -> (s: &str)
        ensures
            s@ == self@.2,
    {
        self.lang.as_str()
    }

    pub fn start(&self) -> (n: usize)
        ensures
            n == self@.3,
    {
        self.start
    }

    pub fn body(&self) -> (s: &str)
        ensures
            s@ == self@.4,
    {
        self.body.as_str()
    }
}

} // verus!
