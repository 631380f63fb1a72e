//! Markdown markers read and removed, so what the picker shows is what the agent gets sent.
//!
//! Fence rails stay: they carry the language and the block boundary, and an unfenced block
//! would reach the agent looking like prose.

use vstd::prelude::*;

use crate::markup::{Block, Span};
use crate::text::{chars_of, is_whitespace, is_ws, string_of};
use crate::transcript::block::{classify, classify_spec, indent, spec_indent};
use crate::transcript::marks::{
    emphasised, find_char, in_order, law_stripped_spans_in_order, lemma_find_char, lemma_run_len,
    lemma_scan_len, run_len, runs,
    slice_range, strip as strip_marks, stripped, untag, Tagged,
};

verus! {

/// `str::lines`: split at `\n`, drop a `\r` that ends a line before its `\n`, and no final
/// empty line after a trailing `\n`.
pub open spec fn lines_from(s: Seq<char>, from: int) -> Seq<Seq<char>>
    decreases s.len() + 1 - from,
{
    if from < 0 || from >= s.len() {
        Seq::empty()
    } else {
        let end = match find_char(s, from, s.len() as int, '\n') {
            Some(k) => k,
            None => s.len() as int,
        };
        proof {
            lemma_find_char(s, from, s.len() as int, '\n');
        }
        let raw = s.subrange(from, end);
        let line = if end < s.len() && raw.len() > 0 && raw.last() == '\r' {
            raw.drop_last()
        } else {
            raw
        };
        seq![line] + lines_from(s, end + 1)
    }
}

pub open spec fn lines(s: Seq<char>) -> Seq<Seq<char>> {
    lines_from(s, 0)
}

/// The lines of `chars`, as `str::lines` cuts them.
pub fn split_lines(chars: &[char]) -> (out: Vec<Vec<char>>)
    ensures
        out@.map_values(|v: Vec<char>| v@) == lines(chars@),
{
    let ghost s = chars@;
    let mut out: Vec<Vec<char>> = Vec::new();
    let mut from: usize = 0;
    while from < chars.len()
        invariant
            from <= chars@.len(),
            s == chars@,
            out@.map_values(|v: Vec<char>| v@) + lines_from(s, from as int) == lines(s),
        decreases chars.len() - from,
    {
        let mut end = from;
        while end < chars.len() && chars[end] != '\n'
            invariant
                from <= end <= chars@.len(),
                s == chars@,
                find_char(s, from as int, s.len() as int, '\n') == find_char(
                    s,
                    end as int,
                    s.len() as int,
                    '\n',
                ),
            decreases chars.len() - end,
        {
            end = end + 1;
        }
        let cut = if end < chars.len() && end > from && chars[end - 1] == '\r' {
            end - 1
        } else {
            end
        };
        let line = slice_range(chars, from, cut);
        let ghost before = out@.map_values(|v: Vec<char>| v@);
        out.push(line);
        proof {
            let raw = s.subrange(from as int, end as int);
            if end < chars.len() && end > from && chars[end - 1] == '\r' {
                assert(raw.drop_last() =~= s.subrange(from as int, cut as int));
            } else {
                assert(raw =~= s.subrange(from as int, cut as int));
            }
            assert(out@.map_values(|v: Vec<char>| v@) =~= before.push(line@));
            assert(before.push(line@) + lines_from(s, end + 1) =~= before + lines_from(
                s,
                from as int,
            ));
        }
        from = if end < chars.len() { end + 1 } else { end };
        proof {
            if end >= chars.len() {
                assert(lines_from(s, from as int) =~= Seq::<Seq<char>>::empty());
            }
        }
    }
    proof {
        assert(out@.map_values(|v: Vec<char>| v@) + lines_from(s, from as int) =~= out@.map_values(
            |v: Vec<char>| v@,
        ));
    }
    out
}

/// One line with its markers gone: the text to show, what the line is, and how it reads.
#[derive(Debug)]
pub struct Stripped {
    pub text: String,
    pub block: Block,
    pub spans: Vec<Span>,
}

impl View for Stripped {
    type V = (Seq<char>, Block, Seq<Span>);

    open spec fn view(&self) -> (Seq<char>, Block, Seq<Span>) {
        (self.text@, self.block, self.spans@)
    }
}

/// The fence `text` opens, if it opens one: up to three spaces, then three or more backticks
/// or tildes, then an info string that, after backticks, holds no backtick.
pub open spec fn fence_opened(t: Seq<char>) -> Option<(char, nat)> {
    if run_len(t, 0, ' ') >= 4 {
        None
    } else {
        let rest = t.skip(run_len(t, 0, ' ') as int);
        if rest.len() == 0 || !(rest[0] == '`' || rest[0] == '~') {
            None
        } else {
            let marker = rest[0];
            let len = run_len(rest, 0, marker);
            if len < 3 || (marker == '`' && exists|k: int|
                len <= k < rest.len() && #[trigger] rest[k] == '`') {
                None
            } else {
                Some((marker, len))
            }
        }
    }
}

/// Characters of `m` running back from the end of `s`.
pub open spec fn trail_run(s: Seq<char>, j: int, m: char) -> nat
    decreases j,
{
    if 0 < j <= s.len() && s[j - 1] == m {
        1 + trail_run(s, j - 1, m)
    } else {
        0
    }
}

/// Whether `t` closes a fence of `len` `marker`s: the same character, at least as long, and
/// nothing after it but whitespace.
pub open spec fn fence_closes(marker: char, len: nat, t: Seq<char>) -> bool {
    let rest = t.skip(run_len(t, 0, ' ') as int);
    let body = rest.take(rest.len() - trail_run(rest, rest.len() as int, marker));
    &&& run_len(t, 0, ' ') < 4
    &&& run_len(rest, 0, marker) >= len
    &&& forall|k: int| 0 <= k < body.len() ==> is_ws(#[trigger] body[k])
}

/// Characters of the block marker to keep, then how many to drop. Only a heading's `#`s go:
/// a bullet and a quote's rule still read as themselves in plain text.
pub open spec fn prefix_spec(block: Block, s: Seq<char>) -> (int, int) {
    match block {
        Block::Heading(level) => {
            let at = spec_indent(s) + level;
            (0, at + if at < s.len() && s[at] == ' ' { 1int } else { 0int })
        },
        Block::Quote(len) => (len as int, 0),
        Block::Bullet { at, len } => (at + len, 0),
        _ => (0, 0),
    }
}

/// Each span moved `by` characters to the right.
pub open spec fn moved_by(spans: Seq<Span>, by: int) -> Seq<Span> {
    spans.map_values(
        |sp: Span| Span { from: (sp.from + by) as usize, to: (sp.to + by) as usize, emphasis: sp.emphasis },
    )
}

/// A line outside any fence: the block prefix that survives, then the stripped rest.
pub open spec fn prose_spec(s: Seq<char>) -> (Seq<char>, Block, Seq<Span>) {
    let block = classify_spec(s);
    if block == Block::Rule {
        (s, block, Seq::empty())
    } else {
        let (keep, skip) = prefix_spec(block, s);
        let head = if keep <= s.len() { s.take(keep) } else { Seq::empty() };
        let rest = if keep + skip <= s.len() { s.skip(keep + skip) } else { Seq::empty() };
        let st = stripped(rest);
        (head + untag(st), block, moved_by(emphasised(runs(st)), keep))
    }
}

/// Every line of a turn, threading whether a fence is open. A fenced block stays literal, and
/// a fence never outlives its turn.
pub open spec fn strip_lines(ls: Seq<Seq<char>>, open: Option<(char, nat)>) -> Seq<
    (Seq<char>, Block, Seq<Span>),
>
    decreases ls.len(),
{
    if ls.len() == 0 {
        Seq::empty()
    } else {
        let t = ls[0];
        let rest = ls.drop_first();
        match open {
            Some((m, n)) => if fence_closes(m, n, t) {
                seq![(t, Block::Rail, Seq::<Span>::empty())] + strip_lines(rest, None)
            } else {
                seq![(t, Block::Code, Seq::<Span>::empty())] + strip_lines(rest, open)
            },
            None => match fence_opened(t) {
                Some(f) => seq![(t, Block::Rail, Seq::<Span>::empty())] + strip_lines(rest, Some(f)),
                None => seq![prose_spec(t)] + strip_lines(rest, None),
            },
        }
    }
}

/// An open fenced block: only a run of the same marker, at least as long, closes it.
#[derive(Clone, Copy)]
struct Fence {
    marker: char,
    len: usize,
}

/// The marker and run length of the fence `text` opens, if it opens one.
pub fn open_fence(text: &[char]) -> (r: Option<(char, usize)>)
    ensures
        match fence_opened(text@) {
            Some((m, n)) => r == Some((m, n as usize)) && n <= usize::MAX,
            None => r is None,
        },
{
    let ghost t = text@;
    let spaces = leading(text, ' ');
    if spaces >= 4 {
        return None;
    }
    let ghost rest = t.skip(spaces as int);
    if spaces >= text.len() || !(text[spaces] == '`' || text[spaces] == '~') {
        return None;
    }
    let marker = text[spaces];
    let mut end = spaces;
    while end < text.len() && text[end] == marker
        invariant
            spaces <= end <= text@.len(),
            rest == t.skip(spaces as int),
            t == text@,
            run_len(rest, 0, marker) == (end - spaces) + run_len(
                rest,
                end - spaces,
                marker,
            ),
        decreases text.len() - end,
    {
        assert(rest[end - spaces] == t[end as int]);
        end = end + 1;
    }
    proof {
        if end < text.len() {
            assert(rest[end - spaces] == t[end as int]);
        }
    }
    let len = end - spaces;
    if len < 3 {
        return None;
    }
    if marker == '`' {
        let tick = any_char(text, end, '`');
        proof {
            if tick {
                let j = choose|j: int| end <= j < t.len() && t[j] == '`';
                assert(rest[j - spaces] == '`');
            } else {
                assert forall|k: int| len <= k < rest.len() implies #[trigger] rest[k] != '`' by {
                    assert(rest[k] == t[k + spaces]);
                }
            }
        }
        if tick {
            return None;
        }
    }
    Some((marker, len))
}

impl Fence {
    /// The fence `text` opens, if it opens one.
    fn opened_by(text: &[char]) -> (r: Option<Fence>)
        ensures
            match fence_opened(text@) {
                Some((m, n)) => r matches Some(f) && f.marker == m && f.len == n,
                None => r is None,
            },
    {
        match open_fence(text) {
            Some((marker, len)) => Some(Fence { marker, len }),
            None => None,
        }
    }

    /// Whether `text` is a closing rail: the same character, at least as long, alone.
    fn closed_by(&self, text: &[char]) -> (b: bool)
        ensures
            b == fence_closes(self.marker, self.len as nat, text@),
    {
        closes(self.marker, self.len, text)
    }
}

/// Whether `c` occurs in `s[from..]`.
pub fn any_char(s: &[char], from: usize, c: char) -> (b: bool)
    ensures
        b == exists|k: int| from <= k < s@.len() && s@[k] == c,
{
    let mut k = from;
    while k < s.len()
        invariant
            from <= k,
            forall|j: int| from <= j < k && j < s@.len() ==> s@[j] != c,
        decreases s.len() - k,
    {
        if s[k] == c {
            return true;
        }
        k = k + 1;
    }
    false
}

/// How many `c` run from the start of `s`.
pub fn leading(s: &[char], c: char) -> (n: usize)
    ensures
        n == run_len(s@, 0, c),
        n <= s@.len(),
{
    let mut n: usize = 0;
    while n < s.len() && s[n] == c
        invariant
            n <= s@.len(),
            run_len(s@, 0, c) == n + run_len(s@, n as int, c),
        decreases s.len() - n,
    {
        n = n + 1;
    }
    n
}

/// Whether `text` closes a fence of `len` `marker`s.
pub fn closes(marker: char, len: usize, text: &[char]) -> (b: bool)
    ensures
        b == fence_closes(marker, len as nat, text@),
{
    let ghost t = text@;
    let spaces = leading(text, ' ');
    let ghost rest = t.skip(spaces as int);
    if spaces >= 4 {
        return false;
    }
    // The run of markers the line opens with.
    let mut end = spaces;
    while end < text.len() && text[end] == marker
        invariant
            spaces <= end <= text@.len(),
            rest == t.skip(spaces as int),
            t == text@,
            run_len(rest, 0, marker) == (end - spaces) + run_len(rest, end - spaces, marker),
        decreases text.len() - end,
    {
        assert(rest[end - spaces] == t[end as int]);
        end = end + 1;
    }
    proof {
        if end < text.len() {
            assert(rest[end - spaces] == t[end as int]);
        }
    }
    if end - spaces < len {
        return false;
    }
    // The run of markers it closes with.
    let mut back = text.len();
    while back > spaces && text[back - 1] == marker
        invariant
            spaces <= back <= text@.len(),
            rest == t.skip(spaces as int),
            t == text@,
            trail_run(rest, rest.len() as int, marker) == (text@.len() - back) + trail_run(
                rest,
                back - spaces,
                marker,
            ),
        decreases back - spaces,
    {
        assert(rest[back - spaces - 1] == t[back - 1]);
        back = back - 1;
    }
    proof {
        if back > spaces {
            assert(rest[back - spaces - 1] == t[back - 1]);
        }
    }
    let ghost body = rest.take(rest.len() - trail_run(rest, rest.len() as int, marker));
    proof {
        assert(trail_run(rest, back - spaces, marker) == 0);
        assert(body =~= rest.take(back - spaces));
    }
    let mut k = spaces;
    while k < back
        invariant
            spaces <= k <= back <= text@.len(),
            rest == t.skip(spaces as int),
            t == text@,
            body == rest.take(back - spaces),
            spaces == run_len(t, 0, ' '),
            body == rest.take(rest.len() - trail_run(rest, rest.len() as int, marker)),
            forall|j: int| 0 <= j < k - spaces ==> is_ws(#[trigger] body[j]),
        decreases back - k,
    {
        if !is_whitespace(text[k]) {
            proof {
                assert(body[k - spaces] == t[k as int]);
                assert(!is_ws(body[k - spaces]));
                assert(0 <= k - spaces < body.len());
                assert(!(forall|j: int| 0 <= j < body.len() ==> is_ws(#[trigger] body[j])));
                assert(!fence_closes(marker, len as nat, text@));
            }
            return false;
        }
        assert(body[k - spaces] == t[k as int]);
        k = k + 1;
    }
    true
}

/// A line inside a fenced block: the closing rail, or one more literal body line.
fn inside(open: &mut Option<Fence>, fence: Fence, text: &[char]) -> (out: Stripped)
    ensures
        ({
            let f = (fence.marker, fence.len as nat);
            if fence_closes(f.0, f.1, text@) {
                out@ == (text@, Block::Rail, Seq::<Span>::empty()) && *final(open) is None
            } else {
                out@ == (text@, Block::Code, Seq::<Span>::empty()) && (*final(open) matches Some(
                    g,
                ) && g.marker == fence.marker && g.len == fence.len)
            }
        }),
{
    if fence.closed_by(text) {
        *open = None;
        return literal(text, Block::Rail);
    }
    *open = Some(fence);
    literal(text, Block::Code)
}

/// A line outside one: it opens a fence, or it is prose with markers to read.
fn outside(open: &mut Option<Fence>, text: &[char]) -> (out: Stripped)
    ensures
        match fence_opened(text@) {
            Some((m, n)) => out@ == (text@, Block::Rail, Seq::<Span>::empty()) && (*final(open) matches Some(g) && g.marker == m && g.len == n),
            None => out@ == prose_spec(text@) && *final(open) is None,
        },
{
    match Fence::opened_by(text) {
        Some(fence) => {
            *open = Some(fence);
            literal(text, Block::Rail)
        },
        None => {
            *open = None;
            prose(text)
        },
    }
}

fn literal(text: &[char], block: Block) -> (out: Stripped)
    ensures
        out@ == (text@, block, Seq::<Span>::empty()),
{
    Stripped { text: string_of(text), block, spans: Vec::new() }
}

pub proof fn lemma_runs_bound(l: Seq<Tagged>)
    requires
        l.len() <= usize::MAX,
    ensures
        forall|k: int| 0 <= k < runs(l).len() ==> #[trigger] runs(l)[k].to <= l.len() && runs(
            l,
        )[k].from < runs(l)[k].to,
    decreases l.len(),
{
    if l.len() > 0 {
        let prev = runs(l.drop_last());
        lemma_runs_bound(l.drop_last());
        let n = l.len() - 1;
        let e = l.last().1;
        if prev.len() > 0 && prev.last().emphasis == e && prev.last().to == n {
            assert forall|k: int| 0 <= k < runs(l).len() implies #[trigger] runs(l)[k].to <= l.len()
                && runs(l)[k].from < runs(l)[k].to by {
                if k < prev.len() - 1 {
                    assert(runs(l)[k] == prev[k]);
                }
            }
        } else {
            assert forall|k: int| 0 <= k < runs(l).len() implies #[trigger] runs(l)[k].to <= l.len()
                && runs(l)[k].from < runs(l)[k].to by {
                if k < prev.len() {
                    assert(runs(l)[k] == prev[k]);
                }
            }
        }
    }
}

pub proof fn lemma_emphasised_from(spans: Seq<Span>)
    ensures
        forall|k: int|
            0 <= k < emphasised(spans).len() ==> exists|j: int|
                0 <= j < spans.len() && #[trigger] emphasised(spans)[k] == spans[j],
    decreases spans.len(),
{
    if spans.len() > 0 {
        lemma_emphasised_from(spans.drop_last());
        let prev = spans.drop_last();
        assert forall|k: int| 0 <= k < emphasised(spans).len() implies exists|j: int|
            0 <= j < spans.len() && #[trigger] emphasised(spans)[k] == spans[j] by {
            if k < emphasised(prev).len() {
                let j = choose|j: int| 0 <= j < prev.len() && emphasised(prev)[k] == prev[j];
                assert(spans[j] == prev[j]);
            } else {
                assert(emphasised(spans)[k] == spans[spans.len() - 1]);
            }
        }
    }
}

/// A line whose markers are read: the block prefix that survives, then the stripped rest.
fn prose(text: &[char]) -> (out: Stripped)
    ensures
        out@ == prose_spec(text@),
{
    let block = classify(text);
    if block == Block::Rule {
        return literal(text, block);
    }
    let (keep, skip) = prefix(block, text);
    let head = if keep <= text.len() {
        slice_range(text, 0, keep)
    } else {
        Vec::new()
    };
    let rest = if keep <= text.len() && skip <= text.len() - keep {
        slice_range(text, keep + skip, text.len())
    } else {
        Vec::new()
    };
    proof {
        if keep <= text.len() {
            assert(head@ =~= text@.take(keep as int));
        } else {
            assert(head@ =~= Seq::<char>::empty());
        }
        if keep <= text.len() && skip <= text.len() - keep {
            assert(rest@ =~= text@.skip(keep + skip));
        } else {
            assert(rest@ =~= Seq::<char>::empty());
        }
    }
    let (tail, spans) = strip_marks(&rest);
    let mut out_text = string_of(&head);
    out_text.append(tail.as_str());
    let ghost st = stripped(rest@);
    proof {
        lemma_scan_len(rest@, 0, rest@.len() as int, crate::markup::plain());
        lemma_runs_bound(st);
        lemma_emphasised_from(runs(st));
    }
    let mut moved: Vec<Span> = Vec::new();
    let mut i: usize = 0;
    let total = text.len();
    assert(st.len() + keep <= total);
    while i < spans.len()
        invariant
            i <= spans.len(),
            st.len() + keep <= total,
            spans@ == emphasised(runs(st)),
            st.len() <= rest@.len(),
            rest@.len() + keep <= text@.len() || rest@.len() == 0,
            forall|k: int|
                0 <= k < emphasised(runs(st)).len() ==> exists|j: int|
                    0 <= j < runs(st).len() && #[trigger] emphasised(runs(st))[k] == runs(st)[j],
            forall|k: int|
                0 <= k < runs(st).len() ==> #[trigger] runs(st)[k].to <= st.len() && runs(
                    st,
                )[k].from < runs(st)[k].to,
            moved@ == moved_by(spans@, keep as int).take(i as int),
        decreases spans.len() - i,
    {
        let span = spans[i];
        proof {
            let j = choose|j: int| 0 <= j < runs(st).len() && emphasised(runs(st))[i as int] == runs(st)[j];
            assert(runs(st)[j].to <= st.len());
        }
        moved.push(Span { from: span.from + keep, to: span.to + keep, emphasis: span.emphasis });
        proof {
            assert(moved_by(spans@, keep as int).take(i + 1) =~= moved_by(spans@, keep as int).take(
                i as int,
            ).push(Span { from: (span.from + keep) as usize, to: (span.to + keep) as usize, emphasis: span.emphasis }));
        }
        i = i + 1;
    }
    proof {
        assert(moved_by(spans@, keep as int).take(spans@.len() as int) =~= moved_by(spans@, keep as int));
    }
    Stripped { text: out_text, block, spans: moved }
}

/// Characters of the block marker to keep, then how many to drop.
fn prefix(block: Block, chars: &[char]) -> (r: (usize, usize))
    requires
        block == classify_spec(chars@),
    ensures
        r.0 as int == prefix_spec(block, chars@).0,
        r.1 as int == prefix_spec(block, chars@).1,
        r.0 + r.1 <= chars@.len(),
{
    match block {
        Block::Heading(level) => {
            proof {
                crate::transcript::marks::lemma_run_len(chars@, spec_indent(chars@) as int, '#');
                assert(crate::transcript::block::spec_heading_level(chars@) == Some(level));
                assert(level >= 1);
                assert(spec_indent(chars@) + level <= chars@.len());
            }
            let at = indent(chars) + level;
            let extra: usize = if at < chars.len() && chars[at] == ' ' { 1 } else { 0 };
            assert(at + extra <= chars@.len());
            (0, at + extra)
        },
        Block::Quote(len) => {
            proof {
                crate::transcript::block::lemma_quote_run(chars@, spec_indent(chars@) as int);
            }
            (len, 0)
        },
        Block::Bullet { at, len } => (at + len, 0),
        _ => (0, 0),
    }
}

/// The block marker a line keeps and the characters it drops never run past the line.
proof fn lemma_prefix_fits(s: Seq<char>)
    ensures
        0 <= prefix_spec(classify_spec(s), s).0,
        0 <= prefix_spec(classify_spec(s), s).1,
        prefix_spec(classify_spec(s), s).0 + prefix_spec(classify_spec(s), s).1 <= s.len(),
{
    match classify_spec(s) {
        Block::Heading(level) => {
            crate::transcript::marks::lemma_run_len(s, spec_indent(s) as int, '#');
            assert(crate::transcript::block::spec_heading_level(s) == Some(level));
            assert(level >= 1);
            assert(spec_indent(s) + level <= s.len());
        },
        Block::Quote(len) => {
            crate::transcript::block::lemma_quote_run(s, spec_indent(s) as int);
        },
        _ => {},
    }
}

/// A line read outside a fence carries its emphasis in order inside its text.
proof fn lemma_prose_in_order(s: Seq<char>)
    requires
        s.len() <= usize::MAX,
    ensures
        in_order(prose_spec(s).2, prose_spec(s).0.len() as int),
{
    let block = classify_spec(s);
    if block != Block::Rule {
        lemma_prefix_fits(s);
        let (keep, skip) = prefix_spec(block, s);
        let rest = s.skip(keep + skip);
        let st = stripped(rest);
        lemma_scan_len(rest, 0, rest.len() as int, crate::markup::plain());
        law_stripped_spans_in_order(rest);
        let e = emphasised(runs(st));
        let m = moved_by(e, keep);
        let len = keep + untag(st).len();
        assert(prose_spec(s).0.len() == len);
        assert forall|i: int| 0 <= i < m.len() implies (#[trigger] m[i]).from < m[i].to <= len by {
            assert(e[i].from < e[i].to <= untag(st).len());
        }
        assert forall|i: int, j: int| 0 <= i < j < m.len() implies (#[trigger] m[i]).to <= (#[trigger] m[j]).from by {
            assert(e[i].to <= e[j].from);
            assert(e[j].to <= untag(st).len());
        }
    }
}

/// Every line a turn's body is read into carries its emphasis in order: the spans sorted, none
/// empty, each ending before the next begins, none reaching past the line's text.
pub proof fn law_read_spans_in_order(ls: Seq<Seq<char>>, open: Option<(char, nat)>)
    requires
        forall|k: int| 0 <= k < ls.len() ==> (#[trigger] ls[k]).len() <= usize::MAX,
    ensures
        forall|k: int|
            0 <= k < strip_lines(ls, open).len() ==> in_order(
                (#[trigger] strip_lines(ls, open)[k]).2,
                strip_lines(ls, open)[k].0.len() as int,
            ),
    decreases ls.len(),
{
    if ls.len() > 0 {
        let t = ls[0];
        let rest = ls.drop_first();
        assert forall|k: int| 0 <= k < rest.len() implies (#[trigger] rest[k]).len() <= usize::MAX by {
            assert(rest[k] == ls[k + 1]);
        }
        let next = match open {
            Some((m, n)) => if fence_closes(m, n, t) {
                None
            } else {
                open
            },
            None => match fence_opened(t) {
                Some(f) => Some(f),
                None => None,
            },
        };
        law_read_spans_in_order(rest, next);
        let first = strip_lines(ls, open)[0];
        if open is None && fence_opened(t) is None {
            lemma_prose_in_order(t);
            assert(first == prose_spec(t));
        } else {
            assert(first.2 =~= Seq::<Span>::empty());
        }
        assert forall|k: int| 0 <= k < strip_lines(ls, open).len() implies in_order(
            (#[trigger] strip_lines(ls, open)[k]).2,
            strip_lines(ls, open)[k].0.len() as int,
        ) by {
            if k > 0 {
                assert(strip_lines(ls, open)[k] == strip_lines(rest, next)[k - 1]);
            }
        }
    }
}

/// Read one turn's body. A fenced block stays literal, and a fence never outlives its turn.
pub fn strip(body: &str) -> (out: Vec<Stripped>)
    ensures
        out@.map_values(|s: Stripped| s@) == strip_lines(lines(body@), None),
{
    let chars = chars_of(body);
    let ls = split_lines(&chars);
    let ghost all = ls@.map_values(|v: Vec<char>| v@);
    let mut open: Option<Fence> = None;
    let mut out: Vec<Stripped> = Vec::new();
    let mut k: usize = 0;
    assert(all.skip(0) =~= all);
    while k < ls.len()
        invariant
            k <= ls.len(),
            all == ls@.map_values(|v: Vec<char>| v@),
            all == lines(body@),
            out@.map_values(|s: Stripped| s@) + strip_lines(
                all.skip(k as int),
                match open {
                    Some(f) => Some((f.marker, f.len as nat)),
                    None => None,
                },
            ) == strip_lines(all, None),
        decreases ls.len() - k,
    {
        let ghost before = out@.map_values(|s: Stripped| s@);
        let ghost state = match open {
            Some(f) => Some((f.marker, f.len as nat)),
            None => None::<(char, nat)>,
        };
        let text = &ls[k];
        assert(text@ == all[k as int]);
        assert(all.skip(k as int).drop_first() =~= all.skip(k + 1));
        assert(all.skip(k as int)[0] == all[k as int]);
        let line = match open.take() {
            Some(fence) => inside(&mut open, fence, text),
            None => outside(&mut open, text),
        };
        out.push(line);
        proof {
            assert(out@.map_values(|s: Stripped| s@) =~= before.push(line@));
            let next = match open {
                Some(f) => Some((f.marker, f.len as nat)),
                None => None::<(char, nat)>,
            };
            assert(strip_lines(all.skip(k as int), state) == seq![line@] + strip_lines(
                all.skip(k + 1),
                next,
            ));
            assert(before.push(line@) + strip_lines(all.skip(k + 1), next) =~= before + strip_lines(
                all.skip(k as int),
                state,
            ));
        }
        k = k + 1;
    }
    proof {
        assert(all.skip(ls.len() as int) =~= Seq::<Seq<char>>::empty());
        assert(out@.map_values(|s: Stripped| s@) + Seq::empty() =~= out@.map_values(
            |s: Stripped| s@,
        ));
    }
    out
}


/// Stripping never adds or drops a line: one stripped line for each line of the turn, the
/// fence rails and fenced body included.
pub proof fn law_strip_keeps_lines(ls: Seq<Seq<char>>, open: Option<(char, nat)>)
    ensures
        strip_lines(ls, open).len() == ls.len(),
    decreases ls.len(),
{
    if ls.len() > 0 {
        let t = ls[0];
        let rest = ls.drop_first();
        match open {
            Some((m, n)) => {
                law_strip_keeps_lines(rest, None);
                law_strip_keeps_lines(rest, open);
            },
            None => {
                match fence_opened(t) {
                    Some(f) => law_strip_keeps_lines(rest, Some(f)),
                    None => law_strip_keeps_lines(rest, None),
                }
            },
        }
    }
}

} // verus!
