//! The vocabulary the transcript writes and the paint layer reads: what a line is, who wrote
//! it, where a selection sits, and how a run of characters reads.

use vstd::prelude::*;

verus! {

/// A line's block shape. Markers that survive stripping — a bullet, a quote's `>`, a table's
/// pipes — are still in the text and carry an offset; a heading's `#`s are gone.
#[derive(Debug, Clone, Copy, PartialEq, Eq, Structural)]
pub enum Block {
    Prose,
    /// ATX heading, one to six deep.
    Heading(usize),
    /// Blockquote; the payload is how many characters its `> ` prefix takes.
    Quote(usize),
    /// List item, its marker at `at` and `len` characters long.
    Bullet { at: usize, len: usize },
    /// All marker and no content: a thematic break or a table's `|---|` delimiter row.
    Rule,
    TableRow,
    /// A fenced block's opening or closing rail.
    Rail,
    /// A line inside a fenced block. Literal, so nothing in it was stripped.
    Code,
}

impl Default for Block {
    fn default() -> (b: Self)
        ensures
            b == Block::Prose,
    {
        Block::Prose
    }
}

/// Who wrote a line. `Gap` is the blank row between turns, dropped from any quote.
#[derive(Debug, Clone, Copy, PartialEq, Eq, Structural)]
pub enum Tone {
    Agent,
    User,
    Gap,
}

impl Default for Tone {
    fn default() -> (t: Self)
        ensures
            t == Tone::Gap,
    {
        Tone::Gap
    }
}

/// A source line and a character offset into it. Ordering is reading order.
#[derive(Debug, Clone, Copy, PartialEq, Eq, Structural, PartialOrd, Ord, Hash)]
pub struct Pos {
    pub line: usize,
    pub col: usize,
}

/// Reading order: by line, then by column.
pub open spec fn pos_le(a: Pos, b: Pos) -> bool {
    a.line < b.line || (a.line == b.line && a.col <= b.col)
}

impl Pos {
    pub fn new(line: usize, col: usize) -> (p: Self)
        ensures
            p == (Pos { line, col }),
    {
        Self { line, col }
    }

    /// Start of `line` — where a linewise selection and every vertical move land.
    pub fn line_start(line: usize) -> (p: Self)
        ensures
            p == (Pos { line, col: 0 }),
    {
        Self { line, col: 0 }
    }

    /// Whether `self` comes no later than `other` in reading order.
    pub fn le(&self, other: &Pos) -> (b: bool)
        ensures
            b == pos_le(*self, *other),
    {
        self.line < other.line || (self.line == other.line && self.col <= other.col)
    }
}

impl Default for Pos {
    fn default() -> (p: Self)
        ensures
            p == (Pos { line: 0, col: 0 }),
    {
        Pos { line: 0, col: 0 }
    }
}

/// Emphasis carried by a run of text. Flat, not nested: a code span inside bold arrives as
/// one run holding both, so the painter never has to reconstruct a tree.
#[derive(Debug, Clone, Copy, PartialEq, Eq, Structural)]
pub struct Emphasis {
    pub code: bool,
    pub strong: bool,
    pub italic: bool,
    pub struck: bool,
    pub link: bool,
    /// A link's destination, kept for the reader but stepped back from its label.
    pub dim: bool,
}

/// No emphasis at all: ordinary prose.
pub open spec fn plain() -> Emphasis {
    Emphasis { code: false, strong: false, italic: false, struck: false, link: false, dim: false }
}

impl Default for Emphasis {
    fn default() -> (e: Self)
        ensures
            e == plain(),
    {
        Emphasis { code: false, strong: false, italic: false, struck: false, link: false, dim: false }
    }
}

impl Emphasis {
    /// Whether this run reads as ordinary prose.
    pub fn is_plain(self) -> (b: bool)
        ensures
            b == (self == plain()),
    {
        self == Self::default()
    }
}

/// Characters `from..to` of a stripped line, and how they read.
#[derive(Debug, Clone, Copy, PartialEq, Eq, Structural)]
pub struct Span {
    pub from: usize,
    pub to: usize,
    pub emphasis: Emphasis,
}

/// The part of `s` inside `from..to`, moved to start at `at`.
pub open spec fn shifted(s: Span, from: int, to: int, at: int) -> Option<Span> {
    let start = if s.from >= from { s.from as int } else { from };
    let end = if s.to <= to { s.to as int } else { to };
    if start < end {
        Some(
            Span {
                from: (start - from + at) as usize,
                to: (end - from + at) as usize,
                emphasis: s.emphasis,
            },
        )
    } else {
        None
    }
}

impl Span {
    /// The part of this span inside `from..to`, moved to start at `at`.
    pub fn shift(self, from: usize, to: usize, at: usize) -> (r: Option<Self>)
        requires
            ({
                let start = if self.from >= from { self.from as int } else { from as int };
                let end = if self.to <= to { self.to as int } else { to as int };
                start < end ==> end - from + at <= usize::MAX
            }),
        ensures
            r == shifted(self, from as int, to as int, at as int),
    {
        let start = if self.from >= from { self.from } else { from };
        let end = if self.to <= to { self.to } else { to };
        if start < end {
            Some(Self { from: start - from + at, to: end - from + at, emphasis: self.emphasis })
        } else {
            None
        }
    }
}

} // verus!
