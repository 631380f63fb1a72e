//! The unit the picker scrolls and quotes: one line of the transcript.

use vstd::prelude::*;
use vstd::string::*;

use crate::markup::{Block, Span, Tone};
use crate::ui::wrap::cut_spec;

verus! {

/// One line of the transcript with its markdown markers read off it.
///
/// `text` is what the picker shows *and* what a quote sends — the two cannot drift, because
/// there is only one string.
#[derive(Debug, Clone)]
pub struct SourceLine {
    pub text: String,
    pub tone: Tone,
    pub block: Block,
    /// Emphasis over `text`, in order and non-overlapping.
    pub spans: Vec<Span>,
}

impl View for SourceLine {
    type V = (Seq<char>, Tone, Block, Seq<Span>);

    open spec fn view(&self) -> (Seq<char>, Tone, Block, Seq<Span>) {
        (self.text@, self.tone, self.block, self.spans@)
    }
}

/// The blank row between two turns.
pub open spec fn gap_line() -> (Seq<char>, Tone, Block, Seq<Span>) {
    (Seq::empty(), Tone::Gap, Block::Prose, Seq::empty())
}

impl SourceLine {
    /// The blank row between two turns.
    pub fn gap() -> (line: Self)
        ensures
            line@ == gap_line(),
    {
        Self { text: String::new(), tone: Tone::Gap, block: Block::Prose, spans: Vec::new() }
    }

    /// Characters in the line — the unit a selection column counts, not bytes.
    pub fn len(&self) -> (n: usize)
        ensures
            n == self.text@.len(),
    {
        self.text.as_str().unicode_len()
    }

    pub fn is_empty(&self) -> (b: bool)
        ensures
            b == (self.text@.len() == 0),
    {
        self.text.as_str().is_empty()
    }

    /// Characters `from..to`, clamped to the line.
    pub fn slice(&self, from: usize, to: usize) -> (out: &str)
        ensures
            out@ == cut_spec(self.text@, from as int, to as int),
    {
        crate::ui::wrap::cut(self.text.as_str(), from, to)
    }
}

} // verus!
