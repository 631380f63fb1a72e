//! Inline markers read and removed: `**bold**` becomes `bold`, `[a](b)` becomes `a (b)`.
//!
//! The reading is stated as [`scan`]: the stripped characters of a window of the source, each
//! tagged with the emphasis in force on it. [`strip`] returns those characters as text and the
//! emphasised runs over them as spans.

use vstd::prelude::*;

use crate::markup::{plain, Emphasis, Span};
use crate::text::{
    any_whitespace, contains, contains_exec, is_alnum, is_whitespace, is_ws, push_chars, trim,
    trim_bounds,
};

verus! {

/// A stripped character and the emphasis it reads with.
pub type Tagged = (char, Emphasis);

pub open spec fn tag_all(cs: Seq<char>, e: Emphasis) -> Seq<Tagged> {
    Seq::new(cs.len(), |k: int| (cs[k], e))
}

/// The characters of a tagged sequence.
pub open spec fn untag(l: Seq<Tagged>) -> Seq<char> {
    Seq::new(l.len(), |k: int| l[k].0)
}

pub open spec fn with_code(e: Emphasis) -> Emphasis {
    Emphasis { code: true, ..e }
}

pub open spec fn with_link(e: Emphasis) -> Emphasis {
    Emphasis { link: true, ..e }
}

pub open spec fn with_dim(e: Emphasis) -> Emphasis {
    Emphasis { dim: true, ..e }
}

/// The emphasis a `marker` run of `n` opens inside `outer`.
pub open spec fn opened(m: char, n: int, outer: Emphasis) -> Emphasis {
    if m == '~' {
        Emphasis { struck: true, ..outer }
    } else if n == 2 {
        Emphasis { strong: true, ..outer }
    } else {
        Emphasis { italic: true, ..outer }
    }
}

/// How many `m` run from `i` on.
pub open spec fn run_len(s: Seq<char>, i: int, m: char) -> nat
    decreases s.len() - i,
{
    if 0 <= i < s.len() && s[i] == m {
        1 + run_len(s, i + 1, m)
    } else {
        0
    }
}

/// `k` starts a run of exactly `n` of `m`, not the tail of a longer one.
pub open spec fn is_closer(s: Seq<char>, k: int, m: char, n: nat) -> bool {
    0 <= k < s.len() && s[k] == m && (k == 0 || s[k - 1] != m) && run_len(s, k, m) == n
}

/// The first index in `from..to` (and inside `s`) holding exactly `n` of `m` in a row.
pub open spec fn closer(s: Seq<char>, from: int, to: int, m: char, n: nat) -> Option<int>
    decreases to - from,
{
    if from < 0 || from >= to || from >= s.len() {
        None
    } else if is_closer(s, from, m, n) {
        Some(from)
    } else {
        closer(s, from + 1, to, m, n)
    }
}

/// The first index in `from..to` (and inside `s`) holding `c`.
pub open spec fn find_char(s: Seq<char>, from: int, to: int, c: char) -> Option<int>
    decreases to - from,
{
    if from < 0 || from >= to || from >= s.len() {
        None
    } else if s[from] == c {
        Some(from)
    } else {
        find_char(s, from + 1, to, c)
    }
}

/// A construct opening at `i`: how many source characters it takes, the characters it
/// writes, and — for emphasis — the window scanned again inside it with its new emphasis.
pub type Piece = (int, Seq<Tagged>, Option<(int, int, Emphasis)>);

/// `` `code` `` — the body is literal, so nothing inside it is scanned.
pub open spec fn code_piece(s: Seq<char>, i: int, to: int, outer: Emphasis) -> Option<Piece> {
    let ticks = run_len(s, i, '`');
    match closer(s, i + ticks, to, '`', ticks) {
        Some(close) => Some(
            (close + ticks - i, tag_all(s.subrange(i + ticks, close), with_code(outer)), None),
        ),
        None => None,
    }
}

/// `[label](url)` or `![alt](url)`: the label, then the destination dimmed in brackets —
/// unless the two are the same, or the label is empty, which reads as a bare url.
pub open spec fn link_piece(s: Seq<char>, i: int, to: int, outer: Emphasis) -> Option<Piece> {
    let open = if s[i] == '!' { i + 1 } else { i };
    if !(open < s.len() && s[open] == '[') {
        None
    } else {
        match find_char(s, open + 1, to, ']') {
            None => None,
            Some(close) => if !(close + 1 < s.len() && s[close + 1] == '(') {
                None
            } else {
                match find_char(s, close + 2, to, ')') {
                    None => None,
                    Some(end) => {
                        let label = trim(s.subrange(open + 1, close));
                        let url = trim(s.subrange(close + 2, end));
                        let shown = if label.len() == 0 {
                            url
                        } else {
                            label
                        };
                        let tail = if url.len() > 0 && shown != url {
                            tag_all(seq![' ', '('] + url + seq![')'], with_dim(outer))
                        } else {
                            Seq::empty()
                        };
                        Some((end + 1 - i, tag_all(shown, with_link(outer)) + tail, None))
                    },
                }
            },
        }
    }
}

/// `<https://x>` — the brackets go and the url stays. Anything else in angle brackets is
/// prose or markup nobody wrote as a link.
pub open spec fn autolink_piece(s: Seq<char>, i: int, to: int, outer: Emphasis) -> Option<Piece> {
    match find_char(s, i + 1, to, '>') {
        None => None,
        Some(end) => {
            let url = s.subrange(i + 1, end);
            if (exists|k: int| 0 <= k < url.len() && is_ws(#[trigger] url[k])) || !(contains(
                url,
                seq![':', '/', '/'],
            ) || contains(url, seq!['m', 'a', 'i', 'l', 't', 'o', ':'])) {
                None
            } else {
                Some((end + 1 - i, tag_all(url, with_link(outer)), None))
            }
        },
    }
}

/// Whether a run of `n` markers at `i` can open emphasis: not an underscore inside a word,
/// not a lone tilde, and not followed by whitespace.
pub open spec fn opens_emphasis(s: Seq<char>, i: int, m: char, n: int) -> bool {
    let intraword = m == '_' && i > 0 && is_alnum(s[i - 1]);
    let half_tilde = m == '~' && n < 2;
    let loose = i + n < s.len() && is_ws(s[i + n]);
    !intraword && !half_tilde && !loose
}

/// `**strong**`, `*emphasis*`, or `~~struck~~`, whose body is scanned again.
pub open spec fn emphasis_piece(s: Seq<char>, i: int, to: int, outer: Emphasis) -> Option<Piece> {
    let m = s[i];
    let n: nat = if run_len(s, i, m) < 2 { run_len(s, i, m) } else { 2 };
    if !opens_emphasis(s, i, m, n as int) {
        None
    } else {
        match closer(s, i + n, to, m, n) {
            None => None,
            Some(close) => Some((close + n - i, Seq::empty(), Some((i + n, close, opened(m, n as int, outer))))),
        }
    }
}

/// The construct opening at `i`, if the character there opens one that is complete.
pub open spec fn piece(s: Seq<char>, i: int, to: int, outer: Emphasis) -> Option<Piece> {
    if !(0 <= i < to && i < s.len()) {
        None
    } else if s[i] == '`' {
        code_piece(s, i, to, outer)
    } else if s[i] == '[' || s[i] == '!' {
        link_piece(s, i, to, outer)
    } else if s[i] == '<' {
        autolink_piece(s, i, to, outer)
    } else if s[i] == '*' || s[i] == '_' || s[i] == '~' {
        emphasis_piece(s, i, to, outer)
    } else {
        None
    }
}

/// What `s[i..to]` strips to under `outer`: each construct taken whole, and any character
/// that opens nothing written as itself.
pub open spec fn scan(s: Seq<char>, i: int, to: int, outer: Emphasis) -> Seq<Tagged>
    decreases s.len() - i,
{
    if i < 0 || i >= to || to > s.len() {
        Seq::empty()
    } else {
        proof {
            lemma_piece(s, i, to, outer);
        }
        match piece(s, i, to, outer) {
            Some((t, lit, nested)) => {
                let inner = match nested {
                    Some((a, b, e)) => scan(s, a, b, e),
                    None => Seq::empty(),
                };
                lit + inner + scan(s, i + t, to, outer)
            },
            None => seq![(s[i], outer)] + scan(s, i + 1, to, outer),
        }
    }
}

/// What a construct's nested window strips to, if it has one.
pub open spec fn nested_out(s: Seq<char>, nested: Option<(int, int, Emphasis)>) -> Seq<Tagged> {
    match nested {
        Some((a, b, e)) => scan(s, a, b, e),
        None => Seq::empty(),
    }
}

pub proof fn lemma_scan_unfold(s: Seq<char>, i: int, to: int, outer: Emphasis)
    requires
        0 <= i < to <= s.len(),
    ensures
        scan(s, i, to, outer) == match piece(s, i, to, outer) {
            Some((t, lit, nested)) => lit + nested_out(s, nested) + scan(s, i + t, to, outer),
            None => seq![(s[i], outer)] + scan(s, i + 1, to, outer),
        },
{
}

/// The stripped form of a whole line.
pub open spec fn stripped(s: Seq<char>) -> Seq<Tagged> {
    scan(s, 0, s.len() as int, plain())
}

/// Runs of equal emphasis over a tagged sequence, built the way they are written: each
/// character extends the run before it when the emphasis has not changed.
pub open spec fn runs(l: Seq<Tagged>) -> Seq<Span>
    decreases l.len(),
{
    if l.len() == 0 {
        Seq::empty()
    } else {
        let prev = runs(l.drop_last());
        let n = l.len() - 1;
        let e = l.last().1;
        if prev.len() > 0 && prev.last().emphasis == e && prev.last().to == n {
            prev.update(
                prev.len() - 1,
                Span { from: prev.last().from, to: (n + 1) as usize, emphasis: e },
            )
        } else {
            prev.push(Span { from: n as usize, to: (n + 1) as usize, emphasis: e })
        }
    }
}

/// The spans whose emphasis is not plain prose, in order.
pub open spec fn emphasised(spans: Seq<Span>) -> Seq<Span>
    decreases spans.len(),
{
    if spans.len() == 0 {
        Seq::empty()
    } else if spans.last().emphasis == plain() {
        emphasised(spans.drop_last())
    } else {
        emphasised(spans.drop_last()).push(spans.last())
    }
}

pub proof fn lemma_run_len(s: Seq<char>, i: int, m: char)
    requires
        0 <= i,
    ensures
        i + run_len(s, i, m) <= s.len() || run_len(s, i, m) == 0,
        forall|k: int| i <= k < i + run_len(s, i, m) ==> s[k] == m,
        i + run_len(s, i, m) < s.len() ==> s[i + run_len(s, i, m)] != m,
    decreases s.len() - i,
{
    if 0 <= i < s.len() && s[i] == m {
        lemma_run_len(s, i + 1, m);
    }
}

pub proof fn lemma_closer(s: Seq<char>, from: int, to: int, m: char, n: nat)
    ensures
        closer(s, from, to, m, n) matches Some(k) ==> from <= k < to && k < s.len() && is_closer(
            s,
            k,
            m,
            n,
        ),
    decreases to - from,
{
    if !(from < 0 || from >= to || from >= s.len()) && !is_closer(s, from, m, n) {
        lemma_closer(s, from + 1, to, m, n);
    }
}

pub proof fn lemma_find_char(s: Seq<char>, from: int, to: int, c: char)
    ensures
        find_char(s, from, to, c) matches Some(k) ==> from <= k < to && k < s.len() && s[k] == c,
    decreases to - from,
{
    if !(from < 0 || from >= to || from >= s.len()) && s[from] != c {
        lemma_find_char(s, from + 1, to, c);
    }
}

pub proof fn lemma_trim_len(x: Seq<char>)
    ensures
        trim(x).len() <= x.len(),
{
    crate::text::lemma_lead_ws_bound(x, 0);
    crate::text::lemma_trail_ws_bound(x, x.len() as int);
}

/// A construct takes at least one character, writes no more than it takes, and a nested
/// window sits strictly inside what it takes.
pub proof fn lemma_piece(s: Seq<char>, i: int, to: int, outer: Emphasis)
    requires
        0 <= i < to <= s.len(),
    ensures
        piece(s, i, to, outer) matches Some((t, lit, nested)) ==> {
            &&& 1 <= t
            &&& i + t <= s.len()
            &&& match nested {
                Some((a, b, e)) => i < a <= b && b < to && b - a <= t && lit.len() == 0,
                None => lit.len() <= t && lit.len() <= to - i,
            }
        },
{
    if s[i] == '`' {
        let ticks = run_len(s, i, '`');
        lemma_run_len(s, i, '`');
        lemma_closer(s, i + ticks, to, '`', ticks);
        if let Some(close) = closer(s, i + ticks, to, '`', ticks) {
            lemma_run_len(s, close, '`');
        }
    } else if s[i] == '[' || s[i] == '!' {
        let open = if s[i] == '!' { i + 1 } else { i };
        if open < s.len() && s[open] == '[' {
            lemma_find_char(s, open + 1, to, ']');
            if let Some(close) = find_char(s, open + 1, to, ']') {
                lemma_find_char(s, close + 2, to, ')');
                if let Some(end) = find_char(s, close + 2, to, ')') {
                    lemma_trim_len(s.subrange(open + 1, close));
                    lemma_trim_len(s.subrange(close + 2, end));
                }
            }
        }
    } else if s[i] == '<' {
        lemma_find_char(s, i + 1, to, '>');
    } else if s[i] == '*' || s[i] == '_' || s[i] == '~' {
        let m = s[i];
        lemma_run_len(s, i, m);
        let n: nat = if run_len(s, i, m) < 2 { run_len(s, i, m) } else { 2 };
        lemma_closer(s, i + n, to, m, n);
        if let Some(close) = closer(s, i + n, to, m, n) {
            lemma_run_len(s, close, m);
        }
    }
}

/// The stripped form of a window is never longer than the window.
pub proof fn lemma_scan_len(s: Seq<char>, i: int, to: int, outer: Emphasis)
    ensures
        scan(s, i, to, outer).len() <= if i < to { to - i } else { 0 },
    decreases s.len() - i,
{
    if !(i < 0 || i >= to || to > s.len()) {
        lemma_piece(s, i, to, outer);
        match piece(s, i, to, outer) {
            Some((t, lit, nested)) => {
                if let Some((a, b, e)) = nested {
                    lemma_scan_len(s, a, b, e);
                }
                lemma_scan_len(s, i + t, to, outer);
            },
            None => {
                lemma_scan_len(s, i + 1, to, outer);
            },
        }
    }
}

/// The source being read, what has been written so far, and the runs over it.
struct Strip<'a> {
    chars: &'a [char],
    text: String,
    /// Characters written so far — where the next one lands in `text`.
    len: usize,
    spans: Vec<Span>,
    written: Ghost<Seq<Tagged>>,
}

impl<'a> Strip<'a> {
    spec fn wf(&self) -> bool {
        &&& self.text@ == untag(self.written@)
        &&& self.spans@ == runs(self.written@)
        &&& self.len == self.written@.len()
        &&& self.written@.len() <= self.chars@.len()
    }

    fn at(&self, i: usize) -> (r: Option<char>)
        ensures
            r == (if i < self.chars@.len() {
                Some(self.chars@[i as int])
            } else {
                None::<char>
            }),
    {
        if i < self.chars.len() {
            Some(self.chars[i])
        } else {
            None
        }
    }

    /// Write one character, extending the run before it when the emphasis has not changed.
    fn push(&mut self, c: char, emphasis: Emphasis)
        requires
            old(self).wf(),
            old(self).written@.len() < old(self).chars@.len(),
        ensures
            final(self).wf(),
            final(self).chars == old(self).chars,
            final(self).written@ == old(self).written@.push((c, emphasis)),
    {
        let ghost before = self.written@;
        let _n = self.chars.len();
        self.text.push(c);
        let k = self.spans.len();
        if k > 0 && self.spans[k - 1].emphasis == emphasis && self.spans[k - 1].to == self.len {
            let last = self.spans[k - 1];
            self.spans.set(k - 1, Span { from: last.from, to: last.to + 1, emphasis });
        } else {
            self.spans.push(Span { from: self.len, to: self.len + 1, emphasis });
        }
        self.len = self.len + 1;
        self.written = Ghost(before.push((c, emphasis)));
        proof {
            assert(self.written@.drop_last() =~= before);
            assert(self.text@ =~= untag(self.written@));
            assert(self.spans@ =~= runs(self.written@));
        }
    }

    /// Copy `chars[from..to]` through with one emphasis.
    fn copy(&mut self, from: usize, to: usize, emphasis: Emphasis)
        requires
            old(self).wf(),
            from <= to <= old(self).chars@.len(),
            old(self).written@.len() + (to - from) <= old(self).chars@.len(),
        ensures
            final(self).wf(),
            final(self).chars == old(self).chars,
            final(self).written@ == old(self).written@ + tag_all(
                old(self).chars@.subrange(from as int, to as int),
                emphasis,
            ),
    {
        let ghost before = self.written@;
        let mut i = from;
        while i < to
            invariant
                self.wf(),
                self.chars == old(self).chars,
                from <= i <= to <= self.chars@.len(),
                before.len() + (to - from) <= self.chars@.len(),
                self.written@ == before + tag_all(
                    self.chars@.subrange(from as int, i as int),
                    emphasis,
                ),
            decreases to - i,
        {
            let c = self.chars[i];
            self.push(c, emphasis);
            proof {
                assert(tag_all(self.chars@.subrange(from as int, i + 1), emphasis) =~= tag_all(
                    self.chars@.subrange(from as int, i as int),
                    emphasis,
                ).push((c, emphasis)));
            }
            i = i + 1;
        }
    }

    fn run_len(&self, i: usize, marker: char) -> (n: usize)
        ensures
            n == run_len(self.chars@, i as int, marker),
    {
        let mut j = i;
        while j < self.chars.len() && self.chars[j] == marker
            invariant
                i <= j,
                i <= self.chars@.len() ==> j <= self.chars@.len(),
                run_len(self.chars@, i as int, marker) == (j - i) + run_len(
                    self.chars@,
                    j as int,
                    marker,
                ),
            decreases self.chars@.len() - j,
        {
            j = j + 1;
        }
        j - i
    }

    /// The first index in `from..to` holding exactly `len` of `marker` in a row.
    fn closer(&self, from: usize, to: usize, marker: char, len: usize) -> (r: Option<usize>)
        ensures
            r == (match closer(self.chars@, from as int, to as int, marker, len as nat) {
                Some(k) => Some(k as usize),
                None => None::<usize>,
            }),
    {
        let mut k = from;
        while k < to && k < self.chars.len()
            invariant
                from <= k,
                closer(self.chars@, from as int, to as int, marker, len as nat) == closer(
                    self.chars@,
                    k as int,
                    to as int,
                    marker,
                    len as nat,
                ),
            decreases to - k,
        {
            if self.chars[k] == marker && (k == 0 || self.chars[k - 1] != marker) && self.run_len(
                k,
                marker,
            ) == len {
                return Some(k);
            }
            k = k + 1;
        }
        None
    }

    fn find(&self, from: usize, to: usize, needle: char) -> (r: Option<usize>)
        ensures
            r == (match find_char(self.chars@, from as int, to as int, needle) {
                Some(k) => Some(k as usize),
                None => None::<usize>,
            }),
    {
        let mut k = from;
        while k < to && k < self.chars.len()
            invariant
                from <= k,
                find_char(self.chars@, from as int, to as int, needle) == find_char(
                    self.chars@,
                    k as int,
                    to as int,
                    needle,
                ),
            decreases to - k,
        {
            if self.chars[k] == needle {
                return Some(k);
            }
            k = k + 1;
        }
        None
    }

    /// Walk `from..to`, taking each construct whole. Emphasis recurses, so a code span inside
    /// bold comes out holding both; a marker whose partner is missing is written as text.
    fn scan(&mut self, from: usize, to: usize, outer: Emphasis)
        requires
            old(self).wf(),
            from <= to <= old(self).chars@.len(),
            old(self).written@.len() + (to - from) <= old(self).chars@.len(),
        ensures
            final(self).wf(),
            final(self).chars == old(self).chars,
            final(self).written@ == old(self).written@ + scan(
                old(self).chars@,
                from as int,
                to as int,
                outer,
            ),
        decreases usize::MAX - from, 2int,
    {
        let ghost s = self.chars@;
        let ghost before = self.written@;
        let mut i = from;
        while i < to
            invariant
                self.wf(),
                self.chars@ == s,
                from <= i <= s.len(),
                to <= s.len(),
                self.written@.len() + (if i < to { to - i } else { 0 }) <= s.len(),
                self.written@ + scan(s, i as int, to as int, outer) == before + scan(
                    s,
                    from as int,
                    to as int,
                    outer,
                ),
            decreases s.len() - i,
        {
            let ghost mid = self.written@;
            let _n = self.chars.len();
            proof {
                lemma_piece(s, i as int, to as int, outer);
                lemma_scan_unfold(s, i as int, to as int, outer);
                if let Some((t, lit, nested)) = piece(s, i as int, to as int, outer) {
                    if let Some((a, b, e)) = nested {
                        lemma_scan_len(s, a, b, e);
                    }
                }
            }
            match self.take(i, to, outer) {
                Some(t) => {
                    proof {
                        let (t2, lit, nested) = piece(s, i as int, to as int, outer).unwrap();
                        assert(t2 == t);
                        assert(lit.len() + nested_out(s, nested).len() <= t2);
                        assert(lit.len() + nested_out(s, nested).len() <= to - i);
                        assert(self.written@ + scan(s, i + t, to as int, outer) =~= mid + (lit
                            + nested_out(s, nested) + scan(s, i + t, to as int, outer)));
                    }
                    i = i + t;
                },
                None => {
                    // Nothing taken means the character is not a marker after all, so it is text.
                    let c = self.chars[i];
                    self.push(c, outer);
                    proof {
                        assert(self.written@ + scan(s, i + 1, to as int, outer) =~= mid + (seq![
                            (s[i as int], outer),
                        ] + scan(s, i + 1, to as int, outer)));
                    }
                    i = i + 1;
                },
            }
        }
        proof {
            assert(self.written@ =~= self.written@ + scan(s, i as int, to as int, outer));
        }
    }

    /// The construct opening at `i`, written out whole; `None`, with nothing written, when the
    /// character there opens nothing complete.
    fn take(&mut self, i: usize, to: usize, outer: Emphasis) -> (r: Option<usize>)
        requires
            old(self).wf(),
            i < to <= old(self).chars@.len(),
            old(self).written@.len() + (to - i) <= old(self).chars@.len(),
        ensures
            final(self).wf(),
            final(self).chars == old(self).chars,
            match piece(old(self).chars@, i as int, to as int, outer) {
                Some((t, lit, nested)) => r == Some(t as usize) && final(self).written@ == old(
                    self,
                ).written@ + lit + nested_out(old(self).chars@, nested),
                None => r is None && final(self).written@ == old(self).written@,
            },
        decreases usize::MAX - i, 1int,
    {
        let ghost s = self.chars@;
        let c = self.chars[i];
        if c == '`' {
            let r = self.code(i, to, outer);
            proof {
                if r is Some {
                    assert(self.written@ =~= old(self).written@ + piece(s, i as int, to as int, outer).unwrap().1 + Seq::<Tagged>::empty());
                }
            }
            r
        } else if c == '[' || c == '!' {
            let r = self.link(i, to, outer);
            proof {
                if r is Some {
                    assert(self.written@ =~= old(self).written@ + piece(s, i as int, to as int, outer).unwrap().1 + Seq::<Tagged>::empty());
                }
            }
            r
        } else if c == '<' {
            let r = self.autolink(i, to, outer);
            proof {
                if r is Some {
                    assert(self.written@ =~= old(self).written@ + piece(s, i as int, to as int, outer).unwrap().1 + Seq::<Tagged>::empty());
                }
            }
            r
        } else if c == '*' || c == '_' || c == '~' {
            self.emphasis(i, to, outer)
        } else {
            None
        }
    }

    /// `` `code` `` — the body is literal, so nothing inside it is scanned.
    fn code(&mut self, i: usize, to: usize, outer: Emphasis) -> (r: Option<usize>)
        requires
            old(self).wf(),
            i < to <= old(self).chars@.len(),
            old(self).chars@[i as int] == '`',
            old(self).written@.len() + (to - i) <= old(self).chars@.len(),
        ensures
            final(self).wf(),
            final(self).chars == old(self).chars,
            match piece(old(self).chars@, i as int, to as int, outer) {
                Some((t, lit, nested)) => r == Some(t as usize) && nested is None
                    && final(self).written@ == old(self).written@ + lit,
                None => r is None && final(self).written@ == old(self).written@,
            },
    {
        let ghost s = self.chars@;
        let _n = self.chars.len();
        proof {
            lemma_piece(s, i as int, to as int, outer);
            lemma_run_len(s, i as int, '`');
        }
        let ticks = self.run_len(i, '`');
        let close = match self.closer(i + ticks, to, '`', ticks) {
            Some(close) => close,
            None => return None,
        };
        proof {
            lemma_closer(s, i + ticks, to as int, '`', ticks as nat);
            lemma_run_len(s, close as int, '`');
        }
        self.copy(i + ticks, close, Emphasis { code: true, ..outer });
        Some(close + ticks - i)
    }

    /// `[label](url)`, or `![alt](url)`. The destination is kept, dimmed, after the label —
    /// unless the two are the same, which reads better as a bare url.
    #[verifier::spinoff_prover]
    #[verifier::rlimit(60)]
    fn link(&mut self, i: usize, to: usize, outer: Emphasis) -> (r: Option<usize>)
        requires
            old(self).wf(),
            i < to <= old(self).chars@.len(),
            old(self).chars@[i as int] == '[' || old(self).chars@[i as int] == '!',
            old(self).written@.len() + (to - i) <= old(self).chars@.len(),
        ensures
            final(self).wf(),
            final(self).chars == old(self).chars,
            match piece(old(self).chars@, i as int, to as int, outer) {
                Some((t, lit, nested)) => r == Some(t as usize) && nested is None
                    && final(self).written@ == old(self).written@ + lit,
                None => r is None && final(self).written@ == old(self).written@,
            },
    {
        let ghost s = self.chars@;
        let ghost before = self.written@;
        proof {
            lemma_piece(s, i as int, to as int, outer);
        }
        let open = if self.chars[i] == '!' { i + 1 } else { i };
        if self.at(open) != Some('[') {
            return None;
        }
        let close = match self.find(open + 1, to, ']') {
            Some(close) => close,
            None => return None,
        };
        proof {
            lemma_find_char(s, open + 1, to as int, ']');
        }
        if self.at(close + 1) != Some('(') {
            return None;
        }
        let end = match self.find(close + 2, to, ')') {
            Some(end) => end,
            None => return None,
        };
        proof {
            lemma_find_char(s, close + 2, to as int, ')');
        }
        let (la, lb) = trim_bounds(self.chars, open + 1, close);
        let (ua, ub) = trim_bounds(self.chars, close + 2, end);
        let ghost label = trim(s.subrange(open + 1, close as int));
        let ghost url = trim(s.subrange(close + 2, end as int));
        // The label when there is one, else the url.
        let (sa, sb) = if la == lb { (ua, ub) } else { (la, lb) };
        let ghost shown = if label.len() == 0 { url } else { label };
        assert(s.subrange(sa as int, sb as int) == shown);
        let link = Emphasis { link: true, ..outer };
        self.copy(sa, sb, link);
        let same = equal_ranges(self.chars, sa, sb, ua, ub);
        if ua < ub && !same {
            let dim = Emphasis { dim: true, ..outer };
            self.push(' ', dim);
            self.push('(', dim);
            self.copy(ua, ub, dim);
            self.push(')', dim);
            proof {
                assert(tag_all(seq![' ', '('] + url + seq![')'], dim) =~= seq![(' ', dim), ('(', dim)]
                    + tag_all(url, dim) + seq![(')', dim)]);
                assert(self.written@ =~= before + (tag_all(shown, link) + tag_all(
                    seq![' ', '('] + url + seq![')'],
                    dim,
                )));
            }
        } else {
            assert(self.written@ =~= before + (tag_all(shown, link) + Seq::empty()));
        }
        Some(end + 1 - i)
    }

    /// `<https://x>` — the angle brackets go, the url stays.
    fn autolink(&mut self, i: usize, to: usize, outer: Emphasis) -> (r: Option<usize>)
        requires
            old(self).wf(),
            i < to <= old(self).chars@.len(),
            old(self).chars@[i as int] == '<',
            old(self).written@.len() + (to - i) <= old(self).chars@.len(),
        ensures
            final(self).wf(),
            final(self).chars == old(self).chars,
            match piece(old(self).chars@, i as int, to as int, outer) {
                Some((t, lit, nested)) => r == Some(t as usize) && nested is None
                    && final(self).written@ == old(self).written@ + lit,
                None => r is None && final(self).written@ == old(self).written@,
            },
    {
        let ghost s = self.chars@;
        proof {
            lemma_piece(s, i as int, to as int, outer);
        }
        let end = match self.find(i + 1, to, '>') {
            Some(end) => end,
            None => return None,
        };
        proof {
            lemma_find_char(s, i + 1, to as int, '>');
        }
        let ghost url = s.subrange(i + 1, end as int);
        let spaced = any_whitespace(self.chars, i + 1, end);
        proof {
            if spaced {
                let k = choose|k: int| i + 1 <= k < end && is_ws(#[trigger] s[k]);
                assert(is_ws(url[k - i - 1]));
            } else {
                assert forall|k: int| 0 <= k < url.len() implies !is_ws(#[trigger] url[k]) by {
                    assert(url[k] == s[k + i + 1]);
                }
            }
        }
        if spaced {
            return None;
        }
        let url_chars = slice_range(self.chars, i + 1, end);
        assert(url_chars@ == url);
        let scheme: [char; 3] = [':', '/', '/'];
        let mailto: [char; 7] = ['m', 'a', 'i', 'l', 't', 'o', ':'];
        assert(scheme@ =~= seq![':', '/', '/']);
        assert(mailto@ =~= seq!['m', 'a', 'i', 'l', 't', 'o', ':']);
        if !(contains_exec(&url_chars, &scheme) || contains_exec(&url_chars, &mailto)) {
            return None;
        }
        self.copy(i + 1, end, Emphasis { link: true, ..outer });
        Some(end + 1 - i)
    }

    /// `**strong**`, `*emphasis*`, or `~~struck~~`, scanned again with the new emphasis folded
    /// in so a nested construct keeps both.
    fn emphasis(&mut self, i: usize, to: usize, outer: Emphasis) -> (r: Option<usize>)
        requires
            old(self).wf(),
            i < to <= old(self).chars@.len(),
            old(self).chars@[i as int] == '*' || old(self).chars@[i as int] == '_'
                || old(self).chars@[i as int] == '~',
            old(self).written@.len() + (to - i) <= old(self).chars@.len(),
        ensures
            final(self).wf(),
            final(self).chars == old(self).chars,
            match piece(old(self).chars@, i as int, to as int, outer) {
                Some((t, lit, nested)) => r == Some(t as usize) && final(self).written@ == old(
                    self,
                ).written@ + lit + nested_out(old(self).chars@, nested),
                None => r is None && final(self).written@ == old(self).written@,
            },
        decreases usize::MAX - i, 0int,
    {
        let ghost s = self.chars@;
        proof {
            lemma_piece(s, i as int, to as int, outer);
        }
        let marker = self.chars[i];
        let _n = self.chars.len();
        proof {
            lemma_run_len(s, i as int, marker);
        }
        let run = self.run_len(i, marker);
        let len = if run < 2 { run } else { 2 };
        if !self.opens_emphasis(i, marker, len) {
            return None;
        }
        let close = match self.closer(i + len, to, marker, len) {
            Some(close) => close,
            None => return None,
        };
        proof {
            lemma_closer(s, i + len, to as int, marker, len as nat);
            lemma_run_len(s, close as int, marker);
        }
        let inner = if marker == '~' {
            Emphasis { struck: true, ..outer }
        } else if len == 2 {
            Emphasis { strong: true, ..outer }
        } else {
            Emphasis { italic: true, ..outer }
        };
        self.scan(i + len, close, inner);
        Some(close + len - i)
    }

    /// Whether a marker run at `i` can open emphasis at all.
    fn opens_emphasis(&self, i: usize, marker: char, len: usize) -> (b: bool)
        requires
            i < self.chars@.len(),
            i + len <= self.chars@.len(),
        ensures
            b == opens_emphasis(self.chars@, i as int, marker, len as int),
    {
        // An underscore inside a word is not a marker — that keeps `snake_case` upright.
        let intraword = marker == '_' && i > 0 && is_alnum_exec(self.chars[i - 1]);
        // A lone tilde is a home directory or a rough number.
        let half_tilde = marker == '~' && len < 2;
        // A marker followed by a space opens nothing — that is arithmetic or a stray bullet.
        let loose = len < self.chars.len() - i && is_whitespace(self.chars[i + len]);
        !intraword && !half_tilde && !loose
    }
}

fn is_alnum_exec(c: char) -> (b: bool)
    ensures
        b == is_alnum(c),
{
    ('0' <= c && c <= '9') || ('a' <= c && c <= 'z') || ('A' <= c && c <= 'Z')
}

/// Whether `s[a1..b1]` and `s[a2..b2]` hold the same characters.
fn equal_ranges(s: &[char], a1: usize, b1: usize, a2: usize, b2: usize) -> (eq: bool)
    requires
        a1 <= b1 <= s.len(),
        a2 <= b2 <= s.len(),
    ensures
        eq == (s@.subrange(a1 as int, b1 as int) == s@.subrange(a2 as int, b2 as int)),
{
    if b1 - a1 != b2 - a2 {
        assert(s@.subrange(a1 as int, b1 as int).len() != s@.subrange(a2 as int, b2 as int).len());
        return false;
    }
    let mut k: usize = 0;
    while k < b1 - a1
        invariant
            a1 <= b1 <= s.len(),
            a2 <= b2 <= s.len(),
            b1 - a1 == b2 - a2,
            k <= b1 - a1,
            forall|j: int|
                0 <= j < k ==> #[trigger] s@.subrange(a1 as int, b1 as int)[j] == s@.subrange(
                    a2 as int,
                    b2 as int,
                )[j],
        decreases b1 - a1 - k,
    {
        if s[a1 + k] != s[a2 + k] {
            assert(s@.subrange(a1 as int, b1 as int)[k as int] != s@.subrange(a2 as int, b2 as int)[k as int]);
            return false;
        }
        k = k + 1;
    }
    assert(s@.subrange(a1 as int, b1 as int) =~= s@.subrange(a2 as int, b2 as int));
    true
}

/// A copy of `s[from..to]`.
pub fn slice_range(s: &[char], from: usize, to: usize) -> (out: Vec<char>)
    requires
        from <= to <= s.len(),
    ensures
        out@ == s@.subrange(from as int, to as int),
{
    let mut out: Vec<char> = Vec::new();
    let mut i = from;
    while i < to
        invariant
            from <= i <= to <= s.len(),
            out@ == s@.subrange(from as int, i as int),
        decreases to - i,
    {
        out.push(s[i]);
        proof {
            assert(s@.subrange(from as int, i + 1) =~= s@.subrange(from as int, i as int).push(
                s@[i as int],
            ));
        }
        i = i + 1;
    }
    out
}

/// Keep only the spans whose emphasis is not plain prose.
fn keep_emphasised(spans: &Vec<Span>) -> (out: Vec<Span>)
    ensures
        out@ == emphasised(spans@),
{
    let mut out: Vec<Span> = Vec::new();
    let mut i: usize = 0;
    while i < spans.len()
        invariant
            i <= spans.len(),
            out@ == emphasised(spans@.take(i as int)),
        decreases spans.len() - i,
    {
        let span = spans[i];
        proof {
            assert(spans@.take(i + 1).drop_last() =~= spans@.take(i as int));
        }
        if !span.emphasis.is_plain() {
            out.push(span);
        }
        i = i + 1;
    }
    assert(spans@.take(spans@.len() as int) =~= spans@);
    out
}

/// A character that opens no construct: no code tick, link, angle bracket or emphasis marker.
pub open spec fn inert(c: char) -> bool {
    c != '`' && c != '[' && c != '!' && c != '<' && c != '*' && c != '_' && c != '~'
}

/// A stretch of characters that open nothing is written as it stands, in the emphasis around it.
proof fn lemma_inert_run(s: Seq<char>, a: int, b: int, to: int, e: Emphasis)
    requires
        0 <= a <= b <= to <= s.len(),
        forall|k: int| a <= k < b ==> inert(#[trigger] s[k]),
    ensures
        scan(s, a, to, e) == tag_all(s.subrange(a, b), e) + scan(s, b, to, e),
    decreases b - a,
{
    if a == b {
        assert(tag_all(s.subrange(a, b), e) =~= Seq::<Tagged>::empty());
        assert(Seq::<Tagged>::empty() + scan(s, b, to, e) =~= scan(s, b, to, e));
    } else {
        lemma_inert_run(s, a + 1, b, to, e);
        lemma_scan_unfold(s, a, to, e);
        assert(inert(s[a]));
        assert(piece(s, a, to, e) is None);
        assert(tag_all(s.subrange(a, b), e) =~= seq![(s[a], e)] + tag_all(s.subrange(a + 1, b), e));
    }
}

/// The first closer at or after `from` is the one at `c`, when no `m` stands before it.
proof fn lemma_first_closer(s: Seq<char>, from: int, c: int, to: int, m: char, n: nat)
    requires
        0 <= from <= c < to,
        is_closer(s, c, m, n),
        forall|k: int| from <= k < c ==> s[k] != m,
    ensures
        closer(s, from, to, m, n) == Some(c),
    decreases c - from,
{
    if from < c {
        lemma_first_closer(s, from + 1, c, to, m, n);
    }
}

/// One `*` or `_` on each side of a stretch marks it italic, and only italic: a line made of
/// inert text, then such a pair around inert text that does not open on a space (and, for `_`,
/// that does not sit inside a word), then inert text, strips to its characters with the
/// marked stretch italic and not strong, and the rest plain.
pub proof fn law_single_marker_is_italic(u: Seq<char>, m: char, w: Seq<char>, v: Seq<char>)
    requires
        m == '*' || m == '_',
        w.len() > 0,
        !is_ws(w[0]),
        m == '_' ==> (u.len() == 0 || !is_alnum(u.last())),
        forall|k: int| 0 <= k < u.len() ==> inert(#[trigger] u[k]),
        forall|k: int| 0 <= k < w.len() ==> inert(#[trigger] w[k]),
        forall|k: int| 0 <= k < v.len() ==> inert(#[trigger] v[k]),
    ensures
        stripped(u + seq![m] + w + seq![m] + v) == tag_all(u, plain()) + tag_all(w, Emphasis { italic: true, ..plain() })
            + tag_all(v, plain()),
{
    let s = u + seq![m] + w + seq![m] + v;
    let i = u.len() as int;
    let c = i + 1 + w.len();
    let len = s.len() as int;
    assert(s[i] == m && s[c] == m);
    assert forall|k: int| 0 <= k < i implies inert(#[trigger] s[k]) by {
        assert(s[k] == u[k]);
    }
    assert forall|k: int| i + 1 <= k < c implies inert(#[trigger] s[k]) by {
        assert(s[k] == w[k - i - 1]);
    }
    assert forall|k: int| c + 1 <= k < len implies inert(#[trigger] s[k]) by {
        assert(s[k] == v[k - c - 1]);
    }
    lemma_inert_run(s, 0, i, len, plain());
    assert(s.subrange(0, i) =~= u);
    assert(s[i + 1] == w[0]);
    assert(run_len(s, i + 1, m) == 0);
    assert(run_len(s, i, m) == 1);
    assert(s[c - 1] == w.last());
    if c + 1 < len {
        assert(s[c + 1] == v[0]);
    }
    assert(run_len(s, c + 1, m) == 0);
    assert(run_len(s, c, m) == 1);
    assert(is_closer(s, c, m, 1));
    assert forall|k: int| i + 1 <= k < c implies s[k] != m by {
        assert(inert(s[k]));
    }
    lemma_first_closer(s, i + 1, c, len, m, 1);
    if i > 0 {
        assert(s[i - 1] == u.last());
    }
    assert(opens_emphasis(s, i, m, 1));
    let e = opened(m, 1, plain());
    assert(piece(s, i, len, plain()) == Some::<Piece>((c + 1 - i, Seq::empty(), Some((i + 1, c, e)))));
    lemma_scan_unfold(s, i, len, plain());
    lemma_inert_run(s, i + 1, c, c, e);
    assert(s.subrange(i + 1, c) =~= w);
    assert(scan(s, c, c, e) =~= Seq::<Tagged>::empty());
    lemma_inert_run(s, c + 1, len, len, plain());
    assert(s.subrange(c + 1, len) =~= v);
    assert(scan(s, len, len, plain()) =~= Seq::<Tagged>::empty());
    assert(e == Emphasis { italic: true, ..plain() });
    assert(stripped(s) =~= tag_all(u, plain()) + tag_all(w, e) + tag_all(v, plain()));
}

/// Two `*` or `_` on each side of a stretch mark it strong, and not italic; two `~` strike it
/// through: the same line as for a single marker, with the marker doubled on both sides.
pub proof fn law_double_marker_is_strong_or_struck(u: Seq<char>, m: char, w: Seq<char>, v: Seq<char>)
    requires
        m == '*' || m == '_' || m == '~',
        w.len() > 0,
        !is_ws(w[0]),
        m == '_' ==> (u.len() == 0 || !is_alnum(u.last())),
        forall|k: int| 0 <= k < u.len() ==> inert(#[trigger] u[k]),
        forall|k: int| 0 <= k < w.len() ==> inert(#[trigger] w[k]),
        forall|k: int| 0 <= k < v.len() ==> inert(#[trigger] v[k]),
    ensures
        stripped(u + seq![m, m] + w + seq![m, m] + v) == tag_all(u, plain()) + tag_all(
            w,
            if m == '~' {
                Emphasis { struck: true, ..plain() }
            } else {
                Emphasis { strong: true, ..plain() }
            },
        ) + tag_all(v, plain()),
{
    let s = u + seq![m, m] + w + seq![m, m] + v;
    let i = u.len() as int;
    let c = i + 2 + w.len();
    let len = s.len() as int;
    assert(s[i] == m && s[i + 1] == m && s[c] == m && s[c + 1] == m);
    assert forall|k: int| 0 <= k < i implies inert(#[trigger] s[k]) by {
        assert(s[k] == u[k]);
    }
    assert forall|k: int| i + 2 <= k < c implies inert(#[trigger] s[k]) by {
        assert(s[k] == w[k - i - 2]);
    }
    assert forall|k: int| c + 2 <= k < len implies inert(#[trigger] s[k]) by {
        assert(s[k] == v[k - c - 2]);
    }
    lemma_inert_run(s, 0, i, len, plain());
    assert(s.subrange(0, i) =~= u);
    assert(s[i + 2] == w[0]);
    assert(run_len(s, i + 2, m) == 0);
    assert(run_len(s, i + 1, m) == 1);
    assert(run_len(s, i, m) == 2);
    assert(s[c - 1] == w.last());
    if c + 2 < len {
        assert(s[c + 2] == v[0]);
    }
    assert(run_len(s, c + 2, m) == 0);
    assert(run_len(s, c + 1, m) == 1);
    assert(run_len(s, c, m) == 2);
    assert(is_closer(s, c, m, 2));
    assert forall|k: int| i + 2 <= k < c implies s[k] != m by {
        assert(inert(s[k]));
    }
    lemma_first_closer(s, i + 2, c, len, m, 2);
    if i > 0 {
        assert(s[i - 1] == u.last());
    }
    assert(opens_emphasis(s, i, m, 2));
    let e = opened(m, 2, plain());
    assert(piece(s, i, len, plain()) == Some::<Piece>((c + 2 - i, Seq::empty(), Some((i + 2, c, e)))));
    lemma_scan_unfold(s, i, len, plain());
    lemma_inert_run(s, i + 2, c, c, e);
    assert(s.subrange(i + 2, c) =~= w);
    assert(scan(s, c, c, e) =~= Seq::<Tagged>::empty());
    lemma_inert_run(s, c + 2, len, len, plain());
    assert(s.subrange(c + 2, len) =~= v);
    assert(scan(s, len, len, plain()) =~= Seq::<Tagged>::empty());
    assert(e == if m == '~' {
        Emphasis { struck: true, ..plain() }
    } else {
        Emphasis { strong: true, ..plain() }
    });
    assert(stripped(s) =~= tag_all(u, plain()) + tag_all(w, e) + tag_all(v, plain()));
}

/// A stretch between single backticks is code, taken literally: a line of inert text, then
/// backticks around text that holds none, then inert text, strips to its characters with the
/// stretch — markers and all — marked code and the rest plain.
pub proof fn law_backticks_quote_code(u: Seq<char>, w: Seq<char>, v: Seq<char>)
    requires
        w.len() > 0,
        forall|k: int| 0 <= k < u.len() ==> inert(#[trigger] u[k]),
        forall|k: int| 0 <= k < w.len() ==> #[trigger] w[k] != '`',
        forall|k: int| 0 <= k < v.len() ==> inert(#[trigger] v[k]),
    ensures
        stripped(u + seq!['`'] + w + seq!['`'] + v) == tag_all(u, plain()) + tag_all(w, Emphasis { code: true, ..plain() })
            + tag_all(v, plain()),
{
    let s = u + seq!['`'] + w + seq!['`'] + v;
    let i = u.len() as int;
    let c = i + 1 + w.len();
    let len = s.len() as int;
    assert(s[i] == '`' && s[c] == '`');
    assert forall|k: int| 0 <= k < i implies inert(#[trigger] s[k]) by {
        assert(s[k] == u[k]);
    }
    assert forall|k: int| c + 1 <= k < len implies inert(#[trigger] s[k]) by {
        assert(s[k] == v[k - c - 1]);
    }
    assert forall|k: int| i + 1 <= k < c implies s[k] != '`' by {
        assert(s[k] == w[k - i - 1]);
    }
    lemma_inert_run(s, 0, i, len, plain());
    assert(s.subrange(0, i) =~= u);
    assert(s[i + 1] == w[0]);
    assert(run_len(s, i + 1, '`') == 0);
    assert(run_len(s, i, '`') == 1);
    assert(s[c - 1] == w.last());
    if c + 1 < len {
        assert(s[c + 1] == v[0]);
    }
    assert(run_len(s, c + 1, '`') == 0);
    assert(run_len(s, c, '`') == 1);
    assert(is_closer(s, c, '`', 1));
    lemma_first_closer(s, i + 1, c, len, '`', 1);
    let e = with_code(plain());
    assert(s.subrange(i + 1, c) =~= w);
    assert(piece(s, i, len, plain()) == Some::<Piece>((c + 1 - i, tag_all(w, e), None)));
    lemma_scan_unfold(s, i, len, plain());
    lemma_inert_run(s, c + 1, len, len, plain());
    assert(s.subrange(c + 1, len) =~= v);
    assert(scan(s, len, len, plain()) =~= Seq::<Tagged>::empty());
    assert(e == Emphasis { code: true, ..plain() });
    assert(stripped(s) =~= tag_all(u, plain()) + tag_all(w, e) + tag_all(v, plain()));
}

/// Characters written in one emphasis after a run of another extend the spans by one more.
proof fn lemma_runs_extend(l: Seq<Tagged>, x: Seq<char>, e: Emphasis)
    requires
        l.len() + x.len() <= usize::MAX,
        x.len() > 0,
        l.len() == 0 || (runs(l).len() > 0 && runs(l).last().emphasis != e),
    ensures
        runs(l + tag_all(x, e)) == runs(l).push(
            Span { from: l.len() as usize, to: (l.len() + x.len()) as usize, emphasis: e },
        ),
    decreases x.len(),
{
    lemma_runs_in_order(l);
    let front = x.drop_last();
    let whole = l + tag_all(x, e);
    assert(whole.drop_last() =~= l + tag_all(front, e));
    assert(whole.last() == (x.last(), e));
    if front.len() == 0 {
        assert(l + tag_all(front, e) =~= l);
    } else {
        lemma_runs_extend(l, front, e);
    }
}

/// Plain text, a stretch in emphasis `e`, then plain text again: the only span of emphasis is
/// the stretch.
proof fn lemma_one_span(u: Seq<char>, w: Seq<char>, v: Seq<char>, e: Emphasis)
    requires
        u.len() + w.len() + v.len() <= usize::MAX,
        w.len() > 0,
        e != plain(),
    ensures
        emphasised(runs(tag_all(u, plain()) + tag_all(w, e) + tag_all(v, plain()))) == seq![
            Span { from: u.len() as usize, to: (u.len() + w.len()) as usize, emphasis: e },
        ],
{
    let a = tag_all(u, plain());
    let b = a + tag_all(w, e);
    let c = b + tag_all(v, plain());
    let span = Span { from: u.len() as usize, to: (u.len() + w.len()) as usize, emphasis: e };
    let ra = runs(a);
    if u.len() > 0 {
        assert(Seq::<Tagged>::empty() + tag_all(u, plain()) =~= a);
        lemma_runs_extend(Seq::empty(), u, plain());
        assert(ra == seq![Span { from: 0, to: u.len() as usize, emphasis: plain() }]);
        assert(emphasised(ra) =~= Seq::<Span>::empty()) by {
            assert(ra.drop_last() =~= Seq::<Span>::empty());
            assert(ra.last().emphasis == plain());
            assert(emphasised(Seq::<Span>::empty()) =~= Seq::<Span>::empty());
        }
    } else {
        assert(a =~= Seq::<Tagged>::empty());
        assert(ra =~= Seq::<Span>::empty());
        assert(emphasised(ra) =~= Seq::<Span>::empty());
    }
    lemma_runs_extend(a, w, e);
    let rb = runs(b);
    assert(rb == ra.push(span));
    assert(rb.drop_last() =~= ra);
    assert(rb.last() == span);
    assert(emphasised(rb) == emphasised(ra).push(span));
    assert(emphasised(rb) =~= seq![span]);
    if v.len() > 0 {
        lemma_runs_extend(b, v, plain());
        let rc = runs(c);
        assert(rc.drop_last() =~= rb);
        assert(emphasised(rc) == emphasised(rb));
    } else {
        assert(c =~= b);
    }
}

/// What `strip` hands back for a single-marker pair, as spans: the text without its markers,
/// and one italic span over the marked stretch.
pub proof fn law_single_marker_spans(u: Seq<char>, m: char, w: Seq<char>, v: Seq<char>)
    requires
        m == '*' || m == '_',
        w.len() > 0,
        !is_ws(w[0]),
        m == '_' ==> (u.len() == 0 || !is_alnum(u.last())),
        forall|k: int| 0 <= k < u.len() ==> inert(#[trigger] u[k]),
        forall|k: int| 0 <= k < w.len() ==> inert(#[trigger] w[k]),
        forall|k: int| 0 <= k < v.len() ==> inert(#[trigger] v[k]),
        u.len() + w.len() + v.len() + 2 <= usize::MAX,
    ensures
        untag(stripped(u + seq![m] + w + seq![m] + v)) == u + w + v,
        emphasised(runs(stripped(u + seq![m] + w + seq![m] + v))) == seq![
            Span { from: u.len() as usize, to: (u.len() + w.len()) as usize, emphasis: Emphasis { italic: true, ..plain() } },
        ],
{
    law_single_marker_is_italic(u, m, w, v);
    let e = Emphasis { italic: true, ..plain() };
    lemma_one_span(u, w, v, e);
    assert(untag(tag_all(u, plain()) + tag_all(w, e) + tag_all(v, plain())) =~= u + w + v);
}

/// Spans that sit in order inside a text of `len` characters: each non-empty and inside it,
/// each ending before the next begins.
pub open spec fn in_order(spans: Seq<Span>, len: int) -> bool {
    &&& forall|i: int| 0 <= i < spans.len() ==> (#[trigger] spans[i]).from < spans[i].to <= len
    &&& forall|i: int, j: int| 0 <= i < j < spans.len() ==> (#[trigger] spans[i]).to <= (#[trigger] spans[j]).from
}

proof fn lemma_runs_in_order(l: Seq<Tagged>)
    requires
        l.len() <= usize::MAX,
    ensures
        in_order(runs(l), l.len() as int),
        runs(l).len() > 0 ==> runs(l).last().to == l.len(),
        l.len() > 0 ==> runs(l).len() > 0,
    decreases l.len(),
{
    if l.len() > 0 {
        let front = l.drop_last();
        lemma_runs_in_order(front);
        let prev = runs(front);
        let n = l.len() - 1;
        let e = l.last().1;
        if prev.len() > 0 && prev.last().emphasis == e && prev.last().to == n {
            let r = prev.update(prev.len() - 1, Span { from: prev.last().from, to: (n + 1) as usize, emphasis: e });
            assert(runs(l) == r);
            assert forall|i: int, j: int| 0 <= i < j < r.len() implies (#[trigger] r[i]).to <= (#[trigger] r[j]).from by {
                assert(r[i] == prev[i]);
                if j < r.len() - 1 {
                    assert(r[j] == prev[j]);
                } else {
                    assert(r[j].from == prev[j].from);
                }
            }
        } else {
            let r = prev.push(Span { from: n as usize, to: (n + 1) as usize, emphasis: e });
            assert(runs(l) == r);
            assert forall|i: int, j: int| 0 <= i < j < r.len() implies (#[trigger] r[i]).to <= (#[trigger] r[j]).from by {
                assert(r[i] == prev[i]);
                if j < r.len() - 1 {
                    assert(r[j] == prev[j]);
                } else {
                    assert(prev[i].to <= n);
                }
            }
        }
    }
}

proof fn lemma_emphasised_in_order(spans: Seq<Span>, len: int)
    requires
        in_order(spans, len),
    ensures
        in_order(emphasised(spans), len),
        forall|i: int| 0 <= i < emphasised(spans).len() ==> (#[trigger] emphasised(spans)[i]).emphasis != plain(),
        spans.len() > 0 ==> forall|i: int| 0 <= i < emphasised(spans).len() ==> (#[trigger] emphasised(spans)[i]).to
            <= spans.last().to,
    decreases spans.len(),
{
    if spans.len() > 0 {
        let front = spans.drop_last();
        assert(in_order(front, len)) by {
            assert forall|i: int, j: int| 0 <= i < j < front.len() implies (#[trigger] front[i]).to <= (#[trigger] front[j]).from by {
                assert(front[i] == spans[i] && front[j] == spans[j]);
            }
        }
        lemma_emphasised_in_order(front, len);
        let e = emphasised(front);
        if front.len() > 0 {
            assert(front.last() == spans[spans.len() - 2]);
            assert(spans[spans.len() - 2].to <= spans.last().from);
        }
        if spans.last().emphasis != plain() {
            let r = e.push(spans.last());
            assert(emphasised(spans) == r);
            assert forall|i: int, j: int| 0 <= i < j < r.len() implies (#[trigger] r[i]).to <= (#[trigger] r[j]).from by {
                assert(r[i] == e[i]);
                if j < r.len() - 1 {
                    assert(r[j] == e[j]);
                }
            }
        }
    }
}

/// What stripping a line's markers hands back: the spans of emphasis in reading order, none
/// empty, each ending before the next begins and none reaching past the clean text, and none
/// of them plain prose.
pub proof fn law_stripped_spans_in_order(chars: Seq<char>)
    requires
        chars.len() <= usize::MAX,
    ensures
        in_order(emphasised(runs(stripped(chars))), untag(stripped(chars)).len() as int),
        forall|i: int|
            0 <= i < emphasised(runs(stripped(chars))).len() ==> (#[trigger] emphasised(runs(stripped(chars)))[i]).emphasis
                != plain(),
{
    lemma_scan_len(chars, 0, chars.len() as int, plain());
    lemma_runs_in_order(stripped(chars));
    lemma_emphasised_in_order(runs(stripped(chars)), stripped(chars).len() as int);
}

/// Strip `chars`, returning the clean text and the runs of it that carry emphasis.
pub fn strip(chars: &[char]) -> (r: (String, Vec<Span>))
    ensures
        r.0@ == untag(stripped(chars@)),
        r.1@ == emphasised(runs(stripped(chars@))),
{
    let mut out = Strip {
        chars,
        text: String::new(),
        len: 0,
        spans: Vec::new(),
        written: Ghost(Seq::empty()),
    };
    proof {
        assert(out.text@ =~= untag(out.written@));
    }
    out.scan(0, chars.len(), Emphasis::default());
    assert(out.written@ =~= stripped(chars@));
    let spans = keep_emphasised(&out.spans);
    (out.text, spans)
}

} // verus!
