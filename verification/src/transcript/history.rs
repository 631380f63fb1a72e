//! The parsed session: turns laid out as the lines the picker scrolls.

use vstd::prelude::*;
use vstd::string::*;

use crate::markup::{pos_le, Block, Pos, Span, Tone};
use crate::text::{chars_of, string_of};
use crate::transcript::entry::{entry_turn, Entry};
use crate::transcript::line::{gap_line, SourceLine};
use crate::transcript::markdown::{lines as split_spec, strip, strip_lines, Stripped};
use crate::ui::wrap::{cut, cut_spec};

verus! {

/// A line as the contracts see it: text, tone, block, spans.
pub type LineView = (Seq<char>, Tone, Block, Seq<Span>);

/// The turns a user saw, in order: every assistant or user entry that carries visible text.
pub open spec fn turns_of(es: Seq<Entry>) -> Seq<(Tone, Seq<char>)>
    decreases es.len(),
{
    if es.len() == 0 {
        Seq::empty()
    } else {
        let prev = turns_of(es.drop_last());
        match entry_turn(es.last()) {
            Some(t) => prev.push(t),
            None => prev,
        }
    }
}

/// Consecutive turns of the same tone joined by a blank line: tool calls split one answer
/// across entries, and for quoting it is still one turn.
pub open spec fn merged(ts: Seq<(Tone, Seq<char>)>) -> Seq<(Tone, Seq<char>)>
    decreases ts.len(),
{
    if ts.len() == 0 {
        Seq::empty()
    } else {
        let prev = merged(ts.drop_last());
        let t = ts.last();
        if prev.len() > 0 && prev.last().0 == t.0 {
            prev.update(prev.len() - 1, (t.0, prev.last().1 + seq!['\n', '\n'] + t.1))
        } else {
            prev.push(t)
        }
    }
}

/// One turn's lines, markers read, all in the turn's tone.
pub open spec fn turn_lines(tone: Tone, body: Seq<char>) -> Seq<LineView> {
    strip_lines(split_spec(body), None).map_values(
        |s: (Seq<char>, Block, Seq<Span>)| (s.0, tone, s.1, s.2),
    )
}

/// Every turn's lines with a gap row between two turns, and where each turn starts.
pub open spec fn layout(ts: Seq<(Tone, Seq<char>)>) -> (Seq<LineView>, Seq<usize>)
    decreases ts.len(),
{
    if ts.len() == 0 {
        (Seq::empty(), Seq::empty())
    } else {
        let (ls, st) = layout(ts.drop_last());
        let ls1 = if ls.len() > 0 {
            ls.push(gap_line())
        } else {
            ls
        };
        (ls1 + turn_lines(ts.last().0, ts.last().1), st.push(ls1.len() as usize))
    }
}

/// Turn starts in reading order, each one a line of the transcript or just past the last.
pub open spec fn starts_ordered(starts: Seq<usize>, len: nat) -> bool {
    &&& forall|i: int, j: int| 0 <= i <= j < starts.len() ==> starts[i] <= starts[j]
    &&& forall|i: int| 0 <= i < starts.len() ==> #[trigger] starts[i] <= len
}

/// The first start after `from`, taking them in order from `k`.
pub open spec fn next_start(starts: Seq<usize>, k: int, from: usize) -> Option<usize>
    decreases starts.len() - k,
{
    if k < 0 || k >= starts.len() {
        None
    } else if starts[k] > from {
        Some(starts[k])
    } else {
        next_start(starts, k + 1, from)
    }
}

/// The last start before `from`, among the first `k`.
pub open spec fn prev_start(starts: Seq<usize>, k: int, from: usize) -> Option<usize>
    decreases k,
{
    if k <= 0 || k > starts.len() {
        None
    } else if starts[k - 1] < from {
        Some(starts[k - 1])
    } else {
        prev_start(starts, k - 1, from)
    }
}

/// The last start, among the first `k`, that opens an agent line.
pub open spec fn last_agent_start(lines: Seq<LineView>, starts: Seq<usize>, k: int) -> Option<usize>
    decreases k,
{
    if k <= 0 || k > starts.len() {
        None
    } else if starts[k - 1] < lines.len() && lines[starts[k - 1] as int].1 == Tone::Agent {
        Some(starts[k - 1])
    } else {
        last_agent_start(lines, starts, k - 1)
    }
}

/// Whether turn `k` opens on an agent line.
pub open spec fn opens_agent(lines: Seq<LineView>, starts: Seq<usize>, k: int) -> bool {
    starts[k] < lines.len() && lines[starts[k] as int].1 == Tone::Agent
}

proof fn lemma_last_agent_start(lines: Seq<LineView>, starts: Seq<usize>, k: int)
    requires
        0 <= k <= starts.len(),
    ensures
        match last_agent_start(lines, starts, k) {
            Some(i) => exists|a: int|
                0 <= a < k && starts[a] == i && opens_agent(lines, starts, a) && forall|j: int|
                    a < j < k ==> !#[trigger] opens_agent(lines, starts, j),
            None => forall|j: int| 0 <= j < k ==> !#[trigger] opens_agent(lines, starts, j),
        },
    decreases k,
{
    if k > 0 {
        lemma_last_agent_start(lines, starts, k - 1);
        if opens_agent(lines, starts, k - 1) {
            assert(last_agent_start(lines, starts, k) == Some(starts[k - 1]));
            assert(forall|j: int| k - 1 < j < k ==> !#[trigger] opens_agent(lines, starts, j));
        } else {
            assert(last_agent_start(lines, starts, k) == last_agent_start(lines, starts, k - 1));
            match last_agent_start(lines, starts, k - 1) {
                Some(i) => {
                    let a = choose|a: int|
                        0 <= a < k - 1 && starts[a] == i && opens_agent(lines, starts, a) && forall|j: int|
                            a < j < k - 1 ==> !#[trigger] opens_agent(lines, starts, j);
                    assert forall|j: int| a < j < k implies !#[trigger] opens_agent(lines, starts, j) by {
                        if j < k - 1 {
                        }
                    }
                },
                None => {},
            }
        }
    }
}

/// The picker opens on the newest answer: what `last_answer` names is where a turn opening on
/// an agent line starts, and no later turn opens on one; it names nothing only when no turn
/// opens on an agent line at all.
pub proof fn law_last_answer_is_the_newest(lines: Seq<LineView>, starts: Seq<usize>)
    ensures
        match last_agent_start(lines, starts, starts.len() as int) {
            Some(i) => exists|a: int|
                0 <= a < starts.len() && starts[a] == i && opens_agent(lines, starts, a) && forall|j: int|
                    a < j < starts.len() ==> !#[trigger] opens_agent(lines, starts, j),
            None => forall|j: int| 0 <= j < starts.len() ==> !#[trigger] opens_agent(lines, starts, j),
        },
{
    lemma_last_agent_start(lines, starts, starts.len() as int);
}

#[derive(Debug)]
pub struct Transcript {
    lines: Vec<SourceLine>,
    /// Index of the first line of each turn — what `[` and `]` jump between.
    starts: Vec<usize>,
}

impl Transcript {
    pub closed spec fn lines_view(&self) -> Seq<LineView> {
        self.lines@.map_values(|l: SourceLine| l@)
    }

    pub closed spec fn starts_view(&self) -> Seq<usize> {
        self.starts@
    }

    #[verifier::type_invariant]
    closed spec fn wf(&self) -> bool {
        starts_ordered(self.starts@, self.lines@.len())
    }

    /// No turns at all.
    pub fn empty() -> (t: Transcript)
        ensures
            t.lines_view() == Seq::<LineView>::empty(),
            t.starts_view() == Seq::<usize>::empty(),
    {
        let t = Transcript { lines: Vec::new(), starts: Vec::new() };
        assert(t.lines_view() =~= Seq::<LineView>::empty());
        t
    }

    pub fn lines(&self) -> (out: &[SourceLine])
        ensures
            out@.map_values(|l: SourceLine| l@) == self.lines_view(),
    {
        self.lines.as_slice()
    }

    /// Index of the first line of each turn.
    pub fn turn_starts(&self) -> (out: &[usize])
        ensures
            out@ == self.starts_view(),
            starts_ordered(out@, self.lines_view().len()),
    {
        proof {
            use_type_invariant(self);
        }
        self.starts.as_slice()
    }

    /// First line of the newest agent turn — where the picker opens.
    pub fn last_answer(&self) -> (r: Option<usize>)
        ensures
            r == last_agent_start(self.lines_view(), self.starts_view(), self.starts_view().len() as int),
    {
        let mut k = self.starts.len();
        while k > 0
            invariant
                k <= self.starts@.len(),
                last_agent_start(self.lines_view(), self.starts@, self.starts@.len() as int)
                    == last_agent_start(self.lines_view(), self.starts@, k as int),
            decreases k,
        {
            let i = self.starts[k - 1];
            if i < self.lines.len() && self.lines[i].tone == Tone::Agent {
                assert(self.lines_view()[i as int].1 == self.lines@[i as int].tone);
                return Some(i);
            }
            proof {
                if i < self.lines@.len() {
                    assert(self.lines_view()[i as int].1 == self.lines@[i as int].tone);
                }
            }
            k = k - 1;
        }
        None
    }

    /// The first turn starting after line `from`: nothing in between starts a turn.
    pub fn next_turn(&self, from: usize) -> (r: Option<usize>)
        ensures
            r == next_start(self.starts_view(), 0, from),
            r matches Some(s) ==> s > from && self.starts_view().contains(s) && forall|t: usize|
                #![trigger self.starts_view().contains(t)]
                self.starts_view().contains(t) && t > from ==> s <= t,
            r is None ==> forall|t: usize| #[trigger] self.starts_view().contains(t) ==> t <= from,
    {
        proof {
            use_type_invariant(self);
        }
        let mut k: usize = 0;
        while k < self.starts.len()
            invariant
                k <= self.starts@.len(),
                next_start(self.starts@, 0, from) == next_start(self.starts@, k as int, from),
                starts_ordered(self.starts@, self.lines@.len()),
                forall|j: int| 0 <= j < k ==> #[trigger] self.starts@[j] <= from,
            decreases self.starts.len() - k,
        {
            if self.starts[k] > from {
                proof {
                    assert(self.starts@.contains(self.starts@[k as int]));
                    assert forall|t: usize| self.starts@.contains(t) && t > from implies self.starts@[k as int]
                        <= t by {
                        let j = choose|j: int| 0 <= j < self.starts@.len() && self.starts@[j] == t;
                        if j < k {
                            assert(self.starts@[j] <= from);
                        }
                    }
                }
                return Some(self.starts[k]);
            }
            k = k + 1;
        }
        None
    }

    /// The last turn starting before line `from`: nothing in between starts a turn.
    pub fn prev_turn(&self, from: usize) -> (r: Option<usize>)
        ensures
            r == prev_start(self.starts_view(), self.starts_view().len() as int, from),
            r matches Some(s) ==> s < from && self.starts_view().contains(s) && forall|t: usize|
                #![trigger self.starts_view().contains(t)]
                self.starts_view().contains(t) && t < from ==> t <= s,
            r is None ==> forall|t: usize| #[trigger] self.starts_view().contains(t) ==> t >= from,
    {
        proof {
            use_type_invariant(self);
        }
        let mut k = self.starts.len();
        while k > 0
            invariant
                k <= self.starts@.len(),
                prev_start(self.starts@, self.starts@.len() as int, from) == prev_start(
                    self.starts@,
                    k as int,
                    from,
                ),
                forall|j: int| k <= j < self.starts@.len() ==> #[trigger] self.starts@[j] >= from,
                starts_ordered(self.starts@, self.lines@.len()),
            decreases k,
        {
            if self.starts[k - 1] < from {
                proof {
                    assert(self.starts@.contains(self.starts@[k - 1]));
                    assert forall|t: usize| self.starts@.contains(t) && t < from implies t <= self.starts@[k
                        - 1] by {
                        let j = choose|j: int| 0 <= j < self.starts@.len() && self.starts@[j] == t;
                        if j >= k {
                            assert(self.starts@[j] >= from);
                        }
                    }
                }
                return Some(self.starts[k - 1]);
            }
            k = k - 1;
        }
        None
    }

    /// Turns laid out as lines: a gap row between two turns, and each turn's start noted.
    pub fn from_turns(turns: &[(Tone, String)]) -> (t: Transcript)
        ensures
            (t.lines_view(), t.starts_view()) == layout(turns@.map_values(
                |p: (Tone, String)| (p.0, p.1@),
            )),
    {
        let ghost ts = turns@.map_values(|p: (Tone, String)| (p.0, p.1@));
        let mut lines: Vec<SourceLine> = Vec::new();
        let mut starts: Vec<usize> = Vec::new();
        let mut i: usize = 0;
        while i < turns.len()
            invariant
                i <= turns.len(),
                ts == turns@.map_values(|p: (Tone, String)| (p.0, p.1@)),
                (lines@.map_values(|l: SourceLine| l@), starts@) == layout(ts.take(i as int)),
                starts_ordered(starts@, lines@.len()),
            decreases turns.len() - i,
        {
            let ghost before = lines@.map_values(|l: SourceLine| l@);
            proof {
                assert(ts.take(i + 1).drop_last() =~= ts.take(i as int));
                assert(ts.take(i + 1).last() == ts[i as int]);
            }
            if lines.len() > 0 {
                lines.push(SourceLine::gap());
            }
            let ghost with_gap = lines@.map_values(|l: SourceLine| l@);
            proof {
                if before.len() > 0 {
                    assert(with_gap =~= before.push(gap_line()));
                } else {
                    assert(with_gap =~= before);
                }
            }
            let start = lines.len();
            starts.push(start);
            let tone = turns[i].0;
            let stripped = strip(turns[i].1.as_str());
            let ghost body = turn_lines(tone, turns@[i as int].1@);
            let mut k: usize = 0;
            while k < stripped.len()
                invariant
                    k <= stripped.len(),
                    stripped@.map_values(|s: Stripped| s@) == strip_lines(split_spec(turns@[i as int].1@), None),
                    body == turn_lines(tone, turns@[i as int].1@),
                    lines@.len() == with_gap.len() + k,
                    lines@.map_values(|l: SourceLine| l@) == with_gap + body.take(k as int),
                decreases stripped.len() - k,
            {
                let s = &stripped[k];
                let line = SourceLine {
                    text: s.text.clone(),
                    tone,
                    block: s.block,
                    spans: copy_spans(&s.spans),
                };
                let ghost prev = lines@.map_values(|l: SourceLine| l@);
                lines.push(line);
                proof {
                    assert(body[k as int] == (s@.0, tone, s@.1, s@.2));
                    assert(lines@.map_values(|l: SourceLine| l@) =~= prev.push(line@));
                    assert(body.take(k + 1) =~= body.take(k as int).push(body[k as int]));
                }
                k = k + 1;
            }
            proof {
                assert(body.take(body.len() as int) =~= body);
                assert forall|a: int, b: int| 0 <= a <= b < starts@.len() implies starts@[a] <= starts@[b] by {
                    if b == starts@.len() - 1 {
                        assert(starts@[a] <= with_gap.len());
                    }
                }
            }
            i = i + 1;
        }
        proof {
            assert(ts.take(turns.len() as int) =~= ts);
        }
        Transcript { lines, starts }
    }

    /// The lines of a session, from its entries: entries that are no turn a user saw drop
    /// out, and consecutive turns of one speaker merge into one.
    pub fn read(entries: Vec<Entry>) -> (t: Transcript)
        ensures
            (t.lines_view(), t.starts_view()) == layout(merged(turns_of(entries@))),
    {
        let ghost es = entries@;
        let count = entries.len();
        let mut turns: Vec<(Tone, String)> = Vec::new();
        let mut i: usize = 0;
        let mut rest = entries;
        proof {
            assert(es.take(0) =~= Seq::<Entry>::empty());
        }
        while i < count
            invariant
                count == es.len(),
                i <= es.len(),
                rest@ == es.skip(i as int),
                turns@.map_values(|p: (Tone, String)| (p.0, p.1@)) == merged(turns_of(es.take(i as int))),
            decreases es.len() - i,
        {
            let entry = rest.remove(0);
            let ghost before = turns@.map_values(|p: (Tone, String)| (p.0, p.1@));
            proof {
                assert(entry == es[i as int]);
                assert(es.take(i + 1).drop_last() =~= es.take(i as int));
                assert(rest@ =~= es.skip(i + 1));
            }
            match entry.into_turn() {
                Some((kind, text)) => {
                    let n = turns.len();
                    if n > 0 && turns[n - 1].0 == kind {
                        let mut body = turns[n - 1].1.clone();
                        body.push('\n');
                        body.push('\n');
                        body.append(text.as_str());
                        assert(body@ =~= before[n - 1].1 + seq!['\n', '\n'] + text@);
                        turns.set(n - 1, (kind, body));
                        proof {
                            assert(turns@.map_values(|p: (Tone, String)| (p.0, p.1@)) =~= before.update(
                                n - 1,
                                (kind, before[n - 1].1 + seq!['\n', '\n'] + text@),
                            ));
                        }
                    } else {
                        turns.push((kind, text));
                        proof {
                            assert(turns@.map_values(|p: (Tone, String)| (p.0, p.1@)) =~= before.push(
                                (kind, text@),
                            ));
                        }
                    }
                    proof {
                        assert(turns_of(es.take(i + 1)) == turns_of(es.take(i as int)).push((kind, text@)));
                        assert(turns_of(es.take(i + 1)).drop_last() =~= turns_of(es.take(i as int)));
                    }
                },
                None => {},
            }
            i = i + 1;
        }
        proof {
            assert(es.take(es.len() as int) =~= es);
        }
        let t = Transcript::from_turns(&turns);
        t
    }

    /// `pos` pulled back onto text that exists: the last line at most, and no further into
    /// its line than its end. With no lines at all, the very start.
    pub fn clamp(&self, pos: Pos) -> (p: Pos)
        ensures
            p == clamp_spec(self.lines_view(), pos),
    {
        if self.lines.len() == 0 {
            return Pos { line: 0, col: 0 };
        }
        let line = if pos.line < self.lines.len() { pos.line } else { self.lines.len() - 1 };
        let len = self.lines[line].len();
        assert(self.lines_view()[line as int].0 == self.lines@[line as int].text@);
        Pos { line, col: if pos.col < len { pos.col } else { len } }
    }

    /// The end of `line`: just past its last character.
    pub fn line_end(&self, line: usize) -> (p: Pos)
        ensures
            p == (Pos {
                line,
                col: if line < self.lines_view().len() {
                    self.lines_view()[line as int].0.len() as usize
                } else {
                    0
                },
            }),
    {
        if line < self.lines.len() {
            assert(self.lines_view()[line as int].0 == self.lines@[line as int].text@);
            Pos { line, col: self.lines[line].len() }
        } else {
            Pos { line, col: 0 }
        }
    }

    /// The text `from..to` covers, line by line: the first line from `from`'s column, the last
    /// up to `to`'s, whole lines between, and the gap rows between turns left out.
    pub fn slice(&self, from: Pos, to: Pos) -> (out: Vec<&str>)
        ensures
            out@.map_values(|s: &str| s@) == slice_spec(self.lines_view(), from, to),
    {
        let mut out: Vec<&str> = Vec::new();
        let end = if to.line < self.lines.len() { to.line + 1 } else { self.lines.len() };
        let mut l = from.line;
        proof {
            assert(out@.map_values(|s: &str| s@) =~= slice_from(self.lines_view(), from, to, from.line as int).take(0));
        }
        let ghost all = slice_from(self.lines_view(), from, to, from.line as int);
        while l < end
            invariant
                from.line <= l,
                end <= self.lines@.len(),
                end == (if to.line < self.lines@.len() { to.line + 1 } else { self.lines@.len() as int }),
                all == slice_from(self.lines_view(), from, to, from.line as int),
                out@.map_values(|s: &str| s@) + slice_from(self.lines_view(), from, to, l as int) == all,
            decreases end - l,
        {
            let line = &self.lines[l];
            let ghost before = out@.map_values(|s: &str| s@);
            assert(self.lines_view()[l as int] == line@);
            if line.tone != Tone::Gap {
                let a = if l == from.line { from.col } else { 0 };
                let b = if l == to.line { to.col } else { line.len() };
                let piece = cut(line.text.as_str(), a, b);
                out.push(piece);
                proof {
                    assert(out@.map_values(|s: &str| s@) =~= before.push(piece@));
                    assert(before.push(piece@) + slice_from(self.lines_view(), from, to, l + 1) =~= before + (seq![piece@] + slice_from(self.lines_view(), from, to, l + 1)));
                }
            }
            l = l + 1;
        }
        proof {
            assert(out@.map_values(|s: &str| s@) + Seq::<Seq<char>>::empty() =~= out@.map_values(|s: &str| s@));
        }
        out
    }
}

/// `pos` pulled back onto existing text.
pub open spec fn clamp_spec(lines: Seq<LineView>, pos: Pos) -> Pos {
    if lines.len() == 0 {
        Pos { line: 0, col: 0 }
    } else {
        let line = if pos.line < lines.len() { pos.line as int } else { lines.len() - 1 };
        let len = lines[line].0.len();
        Pos { line: line as usize, col: if pos.col < len { pos.col } else { len as usize } }
    }
}

/// The quoted text of lines `l..` up to `to`'s line.
pub open spec fn slice_from(lines: Seq<LineView>, from: Pos, to: Pos, l: int) -> Seq<Seq<char>>
    decreases lines.len() - l,
{
    if l < 0 || l > to.line || l >= lines.len() {
        Seq::empty()
    } else if lines[l].1 == Tone::Gap {
        slice_from(lines, from, to, l + 1)
    } else {
        let a = if l == from.line { from.col as int } else { 0 };
        let b = if l == to.line { to.col as int } else { lines[l].0.len() as int };
        seq![cut_spec(lines[l].0, a, b)] + slice_from(lines, from, to, l + 1)
    }
}

pub open spec fn slice_spec(lines: Seq<LineView>, from: Pos, to: Pos) -> Seq<Seq<char>> {
    slice_from(lines, from, to, from.line as int)
}

/// A copy of `spans`.
fn copy_spans(spans: &Vec<Span>) -> (out: Vec<Span>)
    ensures
        out@ == spans@,
{
    let mut out: Vec<Span> = Vec::new();
    let mut i: usize = 0;
    while i < spans.len()
        invariant
            i <= spans.len(),
            out@ == spans@.take(i as int),
        decreases spans.len() - i,
    {
        out.push(spans[i]);
        assert(spans@.take(i + 1) =~= spans@.take(i as int).push(spans@[i as int]));
        i = i + 1;
    }
    assert(spans@.take(spans@.len() as int) =~= spans@);
    out
}

/// Whatever turns the transcript is laid out from, its turns start in reading order and none
/// starts past the end.
pub proof fn law_turn_starts_ordered(ts: Seq<(Tone, Seq<char>)>)
    requires
        layout(ts).0.len() <= usize::MAX,
    ensures
        starts_ordered(layout(ts).1, layout(ts).0.len()),
    decreases ts.len(),
{
    if ts.len() > 0 {
        let (ls, st) = layout(ts.drop_last());
        assert(ls.len() <= layout(ts).0.len());
        law_turn_starts_ordered(ts.drop_last());
        let ls1 = if ls.len() > 0 { ls.push(gap_line()) } else { ls };
        let st2 = st.push(ls1.len() as usize);
        assert forall|a: int, b: int| 0 <= a <= b < st2.len() implies st2[a] <= st2[b] by {
            if b == st2.len() - 1 && a < b {
                assert(st[a] <= ls.len());
            }
        }
        assert forall|a: int| 0 <= a < st2.len() implies #[trigger] st2[a] <= layout(ts).0.len() by {
            if a < st.len() {
                assert(st[a] <= ls.len());
            }
        }
    }
}


/// The lines turn `k` of `ts` lays out.
pub open spec fn turn_at(ts: Seq<(Tone, Seq<char>)>, k: int) -> Seq<LineView> {
    turn_lines(ts[k].0, ts[k].1)
}

/// The lines all of `ts` lay out, gap rows aside.
pub open spec fn lines_of_turns(ts: Seq<(Tone, Seq<char>)>) -> nat
    decreases ts.len(),
{
    if ts.len() == 0 {
        0
    } else {
        lines_of_turns(ts.drop_last()) + turn_lines(ts.last().0, ts.last().1).len()
    }
}

/// Turns that each have a line start one after another: the first on the first line, every
/// other right after the gap row that closes the turn before it, each followed by its own
/// lines in order; and the transcript holds nothing but those lines and one gap row between
/// each two turns.
pub proof fn law_turns_start_after_a_gap(ts: Seq<(Tone, Seq<char>)>)
    requires
        forall|k: int| 0 <= k < ts.len() ==> #[trigger] turn_at(ts, k).len() > 0,
        layout(ts).0.len() <= usize::MAX,
    ensures
        layout(ts).1.len() == ts.len(),
        ts.len() > 0 ==> layout(ts).1[0] == 0,
        forall|a: int, b: int| 0 <= a < b < ts.len() ==> layout(ts).1[a] < layout(ts).1[b],
        forall|k: int| 0 < k < ts.len() ==> layout(ts).0[layout(ts).1[k] - 1] == gap_line(),
        forall|k: int|
            0 <= k < ts.len() ==> layout(ts).1[k] + turn_at(ts, k).len() <= layout(ts).0.len()
                && layout(ts).0.subrange(layout(ts).1[k] as int, layout(ts).1[k] + turn_at(ts, k).len())
                == #[trigger] turn_at(ts, k),
        layout(ts).0.len() == lines_of_turns(ts) + if ts.len() > 0 { ts.len() - 1 } else { 0 },
    decreases ts.len(),
{
    if ts.len() > 0 {
        let prev = ts.drop_last();
        let (ls, st) = layout(prev);
        let ls1 = if ls.len() > 0 { ls.push(gap_line()) } else { ls };
        let last = turn_lines(ts.last().0, ts.last().1);
        let lines = ls1 + last;
        let starts = st.push(ls1.len() as usize);
        assert(layout(ts) == (lines, starts));
        assert forall|k: int| 0 <= k < prev.len() implies #[trigger] turn_at(prev, k).len() > 0 by {
            assert(turn_at(prev, k) == turn_at(ts, k));
        }
        law_turns_start_after_a_gap(prev);
        assert(turn_at(ts, ts.len() - 1) == last);
        if prev.len() > 0 {
            assert(turn_at(prev, 0).len() > 0);
            assert(ls.len() > 0);
        }
        assert forall|a: int, b: int| 0 <= a < b < ts.len() implies starts[a] < starts[b] by {
            if b == ts.len() - 1 {
                assert(turn_at(prev, a).len() > 0);
                assert(st[a] + turn_at(prev, a).len() <= ls.len());
            }
        }
        assert forall|k: int| 0 < k < ts.len() implies lines[starts[k] - 1] == gap_line() by {
            if k < prev.len() {
                assert(turn_at(prev, k).len() > 0);
                assert(st[k] + turn_at(prev, k).len() <= ls.len());
                assert(lines[st[k] - 1] == ls[st[k] - 1]);
            } else {
                assert(lines[ls.len() as int] == ls1[ls.len() as int]);
            }
        }
        assert forall|k: int| 0 <= k < ts.len() implies starts[k] + turn_at(ts, k).len() <= lines.len()
            && lines.subrange(starts[k] as int, starts[k] + turn_at(ts, k).len()) == #[trigger] turn_at(ts, k) by {
            if k < prev.len() {
                assert(turn_at(prev, k) == turn_at(ts, k));
                assert(st[k] + turn_at(prev, k).len() <= ls.len());
                assert(ls.subrange(st[k] as int, st[k] + turn_at(prev, k).len()) == turn_at(prev, k));
                assert(lines.subrange(st[k] as int, st[k] + turn_at(ts, k).len()) =~= ls.subrange(
                    st[k] as int,
                    st[k] + turn_at(prev, k).len(),
                ));
            } else {
                assert(lines.subrange(ls1.len() as int, (ls1.len() + last.len()) as int) =~= last);
            }
        }
    }
}

proof fn lemma_next_start(starts: Seq<usize>, k: int, from: usize)
    requires
        0 <= k,
        forall|i: int, j: int| 0 <= i <= j < starts.len() ==> starts[i] <= starts[j],
    ensures
        next_start(starts, k, from) matches Some(t) ==> {
            &&& t > from
            &&& exists|i: int| k <= i < starts.len() && starts[i] == t
            &&& forall|i: int| k <= i < starts.len() && starts[i] > from ==> t <= #[trigger] starts[i]
        },
        next_start(starts, k, from) is None ==> forall|i: int| k <= i < starts.len() ==> #[trigger] starts[i] <= from,
    decreases starts.len() - k,
{
    if k < starts.len() && starts[k] <= from {
        lemma_next_start(starts, k + 1, from);
    }
}

proof fn lemma_prev_start(starts: Seq<usize>, k: int, from: usize)
    requires
        k <= starts.len(),
        forall|i: int, j: int| 0 <= i <= j < starts.len() ==> starts[i] <= starts[j],
    ensures
        prev_start(starts, k, from) matches Some(p) ==> {
            &&& p < from
            &&& exists|i: int| 0 <= i < k && starts[i] == p
            &&& forall|i: int| 0 <= i < k && starts[i] < from ==> #[trigger] starts[i] <= p
        },
        prev_start(starts, k, from) is None ==> forall|i: int| 0 <= i < k ==> #[trigger] starts[i] >= from,
    decreases k,
{
    if 0 < k && starts[k - 1] >= from {
        lemma_prev_start(starts, k - 1, from);
    }
}

/// Stepping to the next turn and back lands where it started: from the first line of a turn,
/// `[` undoes `]`.
pub proof fn law_prev_undoes_next(starts: Seq<usize>, len: nat, s: usize)
    requires
        starts_ordered(starts, len),
        starts.contains(s),
        next_start(starts, 0, s) is Some,
    ensures
        prev_start(starts, starts.len() as int, next_start(starts, 0, s).unwrap()) == Some(s),
{
    let t = next_start(starts, 0, s).unwrap();
    lemma_next_start(starts, 0, s);
    lemma_prev_start(starts, starts.len() as int, t);
    let m = choose|m: int| 0 <= m < starts.len() && starts[m] == s;
    assert(starts[m] < t);
    match prev_start(starts, starts.len() as int, t) {
        Some(p) => {
            let j = choose|j: int| 0 <= j < starts.len() && starts[j] == p;
            assert(starts[m] <= p);
            if p > s {
                assert(t <= starts[j]);
            }
        },
        None => {
            assert(starts[m] >= t);
        },
    }
}

/// Clamping twice is clamping once: a clamped position is already on text that exists.
pub proof fn law_clamp_settles(lines: Seq<LineView>, pos: Pos)
    ensures
        clamp_spec(lines, clamp_spec(lines, pos)) == clamp_spec(lines, pos),
{
}


/// The texts of the lines `l..=last` that are not gaps, in order.
pub open spec fn shown_texts(lines: Seq<LineView>, l: int, last: int) -> Seq<Seq<char>>
    decreases lines.len() - l,
{
    if l < 0 || l > last || l >= lines.len() {
        Seq::empty()
    } else if lines[l].1 == Tone::Gap {
        shown_texts(lines, l + 1, last)
    } else {
        seq![lines[l].0] + shown_texts(lines, l + 1, last)
    }
}

/// What is on screen is what gets sent: a range over whole lines quotes exactly the text of
/// those lines, the blank rows between turns left out — one string per line, so a fenced
/// block survives byte for byte.
pub proof fn law_whole_lines_quote_as_shown(lines: Seq<LineView>, first: usize, last: usize, l: int)
    requires
        first <= l,
        last < lines.len(),
        lines[last as int].0.len() <= usize::MAX,
    ensures
        slice_from(lines, Pos { line: first, col: 0 }, Pos { line: last, col: lines[last as int].0.len() as usize }, l)
            == shown_texts(lines, l, last as int),
    decreases lines.len() - l,
{
    let from = Pos { line: first, col: 0 };
    let to = Pos { line: last, col: lines[last as int].0.len() as usize };
    if l <= last && l < lines.len() {
        law_whole_lines_quote_as_shown(lines, first, last, l + 1);
        if lines[l].1 != Tone::Gap {
            let t = lines[l].0;
            let a = if l == from.line { from.col as int } else { 0 };
            let b = if l == to.line { to.col as int } else { t.len() as int };
            assert(cut_spec(t, a, b) =~= t);
        }
    }
}

} // verus!
