//! Per-character styling of a source line, as runs the buffer cuts rows against. A run names
//! the role its characters paint in — the paint layer turns each role into its theme's color.

use vstd::prelude::*;

use crate::markup::Emphasis;

verus! {

/// What a run of characters paints as.
#[derive(Debug, Clone, Copy, PartialEq, Eq, Structural)]
pub enum Ink {
    /// The caller's base style.
    Plain,
    /// Stepped back: markers, rules, a table's pipes.
    Dim,
    /// The code accent: a bullet's marker.
    Code,
    /// A heading of this depth.
    Heading(usize),
    /// Emphasis, laid over a heading of this depth or over the base.
    Marked(Option<usize>, Emphasis),
    /// A color the syntax highlighter chose.
    Rgb(u8, u8, u8),
}

/// An ink that takes effect at a character offset and holds until the next run.
#[derive(Debug, Clone, Copy, PartialEq, Eq, Structural)]
pub struct Run {
    pub start: usize,
    pub ink: Ink,
}

/// One source line's styling: runs in increasing order, each holding to the next; what to
/// paint in place of the source, if anything; chrome rows hung above and below it (a rendered
/// table's borders, which take height, select nothing, and read dim); and whether it selects
/// whole.
///
/// No runs means the line paints entirely in the caller's base style — an unstyled
/// paragraph, a user turn, or a fenced block in a language the highlighter does not know.
#[derive(Debug, Clone)]
pub struct LineStyle {
    pub runs: Vec<Run>,
    pub display: Option<String>,
    pub above: Option<String>,
    pub below: Option<String>,
    pub linewise: bool,
}

/// A line style as the contracts see it.
pub type StyleView = (Seq<Run>, Option<Seq<char>>, Option<Seq<char>>, Option<Seq<char>>, bool);

pub open spec fn opt_view(s: Option<String>) -> Option<Seq<char>> {
    match s {
        Some(t) => Some(t@),
        None => None,
    }
}

impl View for LineStyle {
    type V = StyleView;

    open spec fn view(&self) -> StyleView {
        (self.runs@, opt_view(self.display), opt_view(self.above), opt_view(self.below), self.linewise)
    }
}

/// The ink in force at `col` among the first `k` runs: the last one starting at or before it.
pub open spec fn ink_at(runs: Seq<Run>, col: usize, k: int) -> Ink
    decreases k,
{
    if k <= 0 || k > runs.len() {
        Ink::Plain
    } else if runs[k - 1].start <= col {
        runs[k - 1].ink
    } else {
        ink_at(runs, col, k - 1)
    }
}

/// The run starts inside `from..to`, in order.
pub open spec fn breaks_spec(runs: Seq<Run>, from: usize, to: usize) -> Seq<usize>
    decreases runs.len(),
{
    if runs.len() == 0 {
        Seq::empty()
    } else {
        let rest = breaks_spec(runs.drop_last(), from, to);
        let at = runs.last().start;
        if from <= at < to {
            rest.push(at)
        } else {
            rest
        }
    }
}

/// Where `x` goes in `sorted` to keep it ordered by start: after every run that starts no
/// later, so runs with the same start keep their order.
pub open spec fn slot(sorted: Seq<Run>, x: Run, k: int) -> int
    decreases sorted.len() - k,
{
    if k < 0 || k >= sorted.len() {
        sorted.len() as int
    } else if sorted[k].start > x.start {
        k
    } else {
        slot(sorted, x, k + 1)
    }
}

/// `runs` sorted by start, stably: one at a time into place.
pub open spec fn sorted_runs(runs: Seq<Run>) -> Seq<Run>
    decreases runs.len(),
{
    if runs.len() == 0 {
        Seq::empty()
    } else {
        let done = sorted_runs(runs.drop_last());
        done.insert(slot(done, runs.last(), 0), runs.last())
    }
}

pub proof fn lemma_slot(sorted: Seq<Run>, x: Run, k: int)
    requires
        0 <= k <= sorted.len(),
    ensures
        k <= slot(sorted, x, k) <= sorted.len(),
    decreases sorted.len() - k,
{
    if k < sorted.len() && sorted[k].start <= x.start {
        lemma_slot(sorted, x, k + 1);
    }
}

pub proof fn lemma_sorted_len(runs: Seq<Run>)
    ensures
        sorted_runs(runs).len() == runs.len(),
    decreases runs.len(),
{
    if runs.len() > 0 {
        lemma_sorted_len(runs.drop_last());
        lemma_slot(sorted_runs(runs.drop_last()), runs.last(), 0);
    }
}

/// `runs` in order of where they start; runs that start together keep the order they came in,
/// so a later one wins the offset.
pub fn sort_runs(runs: &[Run]) -> (out: Vec<Run>)
    ensures
        out@ == sorted_runs(runs@),
{
    let mut out: Vec<Run> = Vec::new();
    let mut i: usize = 0;
    while i < runs.len()
        invariant
            i <= runs@.len(),
            out@ == sorted_runs(runs@.take(i as int)),
        decreases runs.len() - i,
    {
        let x = runs[i];
        let ghost done = out@;
        let mut k: usize = 0;
        while k < out.len() && out[k].start <= x.start
            invariant
                k <= out@.len(),
                out@ == done,
                slot(done, x, 0) == slot(done, x, k as int),
            decreases out.len() - k,
        {
            k = k + 1;
        }
        proof {
            lemma_slot(done, x, 0);
        }
        out.insert(k, x);
        proof {
            let next = runs@.take(i + 1);
            assert(next.drop_last() =~= runs@.take(i as int));
            assert(next.last() == x);
        }
        i = i + 1;
    }
    assert(runs@.take(runs@.len() as int) =~= runs@);
    out
}

impl LineStyle {
    /// The same style, its strings copied.
    pub fn clone_style(&self) -> (s: LineStyle)
        ensures
            s@ == self@,
    {
        let mut runs: Vec<Run> = Vec::new();
        let mut i: usize = 0;
        while i < self.runs.len()
            invariant
                i <= self.runs@.len(),
                runs@ == self.runs@.take(i as int),
            decreases self.runs.len() - i,
        {
            runs.push(self.runs[i]);
            assert(runs@ =~= self.runs@.take(i + 1));
            i = i + 1;
        }
        assert(self.runs@.take(self.runs@.len() as int) =~= self.runs@);
        LineStyle {
            runs,
            display: match &self.display {
                Some(t) => Some(t.clone()),
                None => None,
            },
            above: match &self.above {
                Some(t) => Some(t.clone()),
                None => None,
            },
            below: match &self.below {
                Some(t) => Some(t.clone()),
                None => None,
            },
            linewise: self.linewise,
        }
    }

    pub fn new(runs: Vec<Run>) -> (s: LineStyle)
        ensures
            s@ == (runs@, None::<Seq<char>>, None::<Seq<char>>, None::<Seq<char>>, false),
    {
        LineStyle { runs, display: None, above: None, below: None, linewise: false }
    }

    /// No styling at all: the base everywhere.
    pub fn plain() -> (s: LineStyle)
        ensures
            s@ == (Seq::<Run>::empty(), None::<Seq<char>>, None::<Seq<char>>, None::<Seq<char>>, false),
    {
        LineStyle::new(Vec::new())
    }

    /// Paint `display` in place of the source line. Every substitution is one character wide
    /// for one character wide, so offsets, hit testing, and the quoted output are untouched —
    /// only the glyph on screen differs.
    pub fn showing(self, display: String) -> (s: LineStyle)
        ensures
            s@ == (self@.0, Some(display@), self@.2, self@.3, self@.4),
    {
        LineStyle { display: Some(display), ..self }
    }

    /// A chrome row hung above this line.
    pub fn above(self, text: String) -> (s: LineStyle)
        ensures
            s@ == (self@.0, self@.1, Some(text@), self@.3, self@.4),
    {
        LineStyle { above: Some(text), ..self }
    }

    /// A chrome row hung below this line.
    pub fn below(self, text: String) -> (s: LineStyle)
        ensures
            s@ == (self@.0, self@.1, self@.2, Some(text@), self@.4),
    {
        LineStyle { below: Some(text), ..self }
    }

    /// Select this line whole. A rendered grid pads its cells, so a character offset into
    /// what was painted no longer names a character in the source.
    pub fn linewise(self) -> (s: LineStyle)
        ensures
            s@ == (self@.0, self@.1, self@.2, self@.3, true),
    {
        LineStyle { linewise: true, ..self }
    }

    pub fn is_linewise(&self) -> (b: bool)
        ensures
            b == self@.4,
    {
        self.linewise
    }

    /// What to paint for this line, or `None` to paint the source as it is.
    pub fn display(&self) -> (r: Option<&str>)
        ensures
            match self@.1 {
                Some(t) => r is Some && r.unwrap()@ == t,
                None => r is None,
            },
    {
        match &self.display {
            Some(t) => Some(t.as_str()),
            None => None,
        }
    }

    pub fn above_row(&self) -> (r: Option<&str>)
        ensures
            match self@.2 {
                Some(t) => r is Some && r.unwrap()@ == t,
                None => r is None,
            },
    {
        match &self.above {
            Some(t) => Some(t.as_str()),
            None => None,
        }
    }

    pub fn below_row(&self) -> (r: Option<&str>)
        ensures
            match self@.3 {
                Some(t) => r is Some && r.unwrap()@ == t,
                None => r is None,
            },
    {
        match &self.below {
            Some(t) => Some(t.as_str()),
            None => None,
        }
    }

    /// The ink in force at character offset `col`.
    pub fn at(&self, col: usize) -> (ink: Ink)
        ensures
            ink == ink_at(self@.0, col, self@.0.len() as int),
    {
        let mut k = self.runs.len();
        while k > 0
            invariant
                k <= self.runs@.len(),
                ink_at(self.runs@, col, self.runs@.len() as int) == ink_at(self.runs@, col, k as int),
            decreases k,
        {
            if self.runs[k - 1].start <= col {
                return self.runs[k - 1].ink;
            }
            k = k - 1;
        }
        Ink::Plain
    }

    /// Offsets inside `from..to` where the ink changes.
    pub fn breaks(&self, from: usize, to: usize) -> (out: Vec<usize>)
        ensures
            out@ == breaks_spec(self@.0, from, to),
    {
        let mut out: Vec<usize> = Vec::new();
        let mut i: usize = 0;
        while i < self.runs.len()
            invariant
                i <= self.runs@.len(),
                out@ == breaks_spec(self.runs@.take(i as int), from, to),
            decreases self.runs.len() - i,
        {
            let at = self.runs[i].start;
            if from <= at && at < to {
                out.push(at);
            }
            proof {
                let next = self.runs@.take(i + 1);
                assert(next.drop_last() =~= self.runs@.take(i as int));
            }
            i = i + 1;
        }
        assert(self.runs@.take(self.runs@.len() as int) =~= self.runs@);
        out
    }
}

/// How many characters of `s` come before the newlines it ends with.
pub open spec fn before_newlines(s: Seq<char>) -> nat
    decreases s.len(),
{
    if s.len() > 0 && s.last() == '\n' {
        before_newlines(s.drop_last())
    } else {
        s.len()
    }
}

/// A highlighted region as the contracts see it: its color and its text.
pub open spec fn region_views(regions: Seq<((u8, u8, u8), &str)>) -> Seq<((u8, u8, u8), Seq<char>)> {
    regions.map_values(|r: ((u8, u8, u8), &str)| (r.0, r.1@))
}

/// Where region `i` of a highlighted line starts: the characters of the regions before it,
/// less the newline each may end with — held at the top of `usize`.
pub open spec fn region_start(regions: Seq<((u8, u8, u8), Seq<char>)>, i: int) -> usize
    decreases i,
{
    if i <= 0 {
        0
    } else {
        let sum = region_start(regions, i - 1) + before_newlines(regions[i - 1].1);
        if sum > usize::MAX {
            usize::MAX
        } else {
            sum as usize
        }
    }
}

fn count_before_newlines(s: &[char]) -> (n: usize)
    ensures
        n == before_newlines(s@),
{
    let mut j = s.len();
    assert(s@.take(j as int) =~= s@);
    while j > 0 && s[j - 1] == '\n'
        invariant
            j <= s@.len(),
            before_newlines(s@) == before_newlines(s@.take(j as int)),
        decreases j,
    {
        assert(s@.take(j as int).drop_last() =~= s@.take(j - 1));
        j = j - 1;
    }
    assert(s@.take(j as int).len() == j);
    proof {
        if j > 0 {
            assert(s@.take(j as int).last() == s@[j - 1]);
        }
    }
    j
}

/// A highlighted line's regions as runs, each starting where the last one ended, in the
/// region's own color.
pub fn region_runs(regions: &[((u8, u8, u8), &str)]) -> (out: Vec<Run>)
    ensures
        out@.len() == regions@.len(),
        forall|i: int|
            0 <= i < regions@.len() ==> #[trigger] out@[i] == (Run {
                start: region_start(region_views(regions@), i),
                ink: Ink::Rgb(regions@[i].0.0, regions@[i].0.1, regions@[i].0.2),
            }),
{
    let ghost views = region_views(regions@);
    let mut out: Vec<Run> = Vec::new();
    let mut at: usize = 0;
    let mut i: usize = 0;
    while i < regions.len()
        invariant
            i <= regions@.len(),
            views == region_views(regions@),
            out@.len() == i,
            at == region_start(views, i as int),
            forall|k: int|
                0 <= k < i ==> #[trigger] out@[k] == (Run {
                    start: region_start(views, k),
                    ink: Ink::Rgb(regions@[k].0.0, regions@[k].0.1, regions@[k].0.2),
                }),
        decreases regions.len() - i,
    {
        let (color, text) = regions[i];
        out.push(Run { start: at, ink: Ink::Rgb(color.0, color.1, color.2) });
        let n = count_before_newlines(&crate::text::chars_of(text));
        assert(views[i as int].1 == text@);
        at = at.saturating_add(n);
        i = i + 1;
    }
    out
}

} // verus!
