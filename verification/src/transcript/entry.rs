//! The transcript entries the picker cares about, as plain values. Reading the JSONL into
//! them is the caller's work; deciding which of them are turns a user saw happens here.

use vstd::prelude::*;

use crate::markup::Tone;
use crate::text::{chars_of, count_lead_ws, string_of, trim, trim_end, trim_end_bound};
use crate::transcript::marks::slice_range;

verus! {

/// One content block of a message. `tool_use`, `tool_result`, and `thinking` blocks are
/// all `Other`.
#[derive(Debug, Clone)]
pub enum ContentBlock {
    Text(String),
    Other,
}

/// User prompts arrive as a bare string, assistant turns as a block list.
#[derive(Debug, Clone)]
pub enum Content {
    Text(String),
    Blocks(Vec<ContentBlock>),
}

/// One user or assistant entry.
#[derive(Debug, Clone)]
pub struct Turn {
    pub content: Content,
    /// Set on a subagent's turns.
    pub is_sidechain: Option<bool>,
    /// Set on entries injected rather than written by a person.
    pub is_meta: Option<bool>,
    /// Whether the entry carries a tool's output.
    pub tool_use_result: bool,
    /// Present when a tool, not the user, produced the entry.
    pub source_tool_use_id: Option<String>,
}

/// One transcript line; `Other` stands for every kind the picker ignores.
#[derive(Debug, Clone)]
pub enum Entry {
    Assistant(Turn),
    User(Turn),
    Other,
}

/// Texts joined with a newline between each two.
pub open spec fn join_newline(texts: Seq<Seq<char>>) -> Seq<char>
    decreases texts.len(),
{
    if texts.len() == 0 {
        Seq::empty()
    } else if texts.len() == 1 {
        texts[0]
    } else {
        join_newline(texts.drop_last()) + seq!['\n'] + texts.last()
    }
}

/// The texts of the text blocks, in order.
pub open spec fn block_texts(blocks: Seq<ContentBlock>) -> Seq<Seq<char>>
    decreases blocks.len(),
{
    if blocks.len() == 0 {
        Seq::empty()
    } else {
        let prev = block_texts(blocks.drop_last());
        match blocks.last() {
            ContentBlock::Text(t) => prev.push(t@),
            ContentBlock::Other => prev,
        }
    }
}

pub open spec fn content_text(c: Content) -> Seq<char> {
    match c {
        Content::Text(t) => t@,
        Content::Blocks(bs) => join_newline(block_texts(bs@)),
    }
}

/// Subagent work, meta entries, and tool traffic — none of it is a turn a user saw.
pub open spec fn is_noise(t: Turn) -> bool {
    t.is_sidechain == Some(true) || t.is_meta == Some(true) || t.tool_use_result
        || t.source_tool_use_id is Some
}

/// The turn's visible text, trimmed at the end, when it is a turn with any text at all.
pub open spec fn turn_text(t: Turn, tone: Tone) -> Option<(Tone, Seq<char>)> {
    if is_noise(t) || trim(content_text(t.content)).len() == 0 {
        None
    } else {
        Some((tone, trim_end(content_text(t.content))))
    }
}

pub open spec fn entry_turn(e: Entry) -> Option<(Tone, Seq<char>)> {
    match e {
        Entry::Assistant(t) => turn_text(t, Tone::Agent),
        Entry::User(t) => turn_text(t, Tone::User),
        Entry::Other => None,
    }
}

impl Content {
    pub fn into_text(self) -> (s: String)
        ensures
            s@ == content_text(self),
    {
        match self {
            Content::Text(text) => text,
            Content::Blocks(blocks) => {
                let ghost all = blocks@;
                let mut out = String::new();
                let mut any = false;
                let mut i: usize = 0;
                while i < blocks.len()
                    invariant
                        i <= blocks.len(),
                        all == blocks@,
                        out@ == join_newline(block_texts(all.take(i as int))),
                        any == (block_texts(all.take(i as int)).len() > 0),
                    decreases blocks.len() - i,
                {
                    let ghost prev = block_texts(all.take(i as int));
                    proof {
                        assert(all.take(i + 1).drop_last() =~= all.take(i as int));
                    }
                    match &blocks[i] {
                        ContentBlock::Text(text) => {
                            if any {
                                out.push('\n');
                            }
                            out.append(text.as_str());
                            any = true;
                            proof {
                                let next = prev.push(text@);
                                assert(block_texts(all.take(i + 1)) == next);
                                assert(next.drop_last() =~= prev);
                                if prev.len() == 0 {
                                    assert(out@ =~= join_newline(next));
                                } else {
                                    assert(out@ =~= join_newline(next));
                                }
                            }
                        },
                        ContentBlock::Other => {},
                    }
                    i = i + 1;
                }
                assert(all.take(all.len() as int) =~= all);
                out
            },
        }
    }
}

impl Turn {
    /// Subagent work, meta entries, and tool traffic — none of it is a turn a user saw.
    pub fn is_noise(&self) -> (b: bool)
        ensures
            b == is_noise(*self),
    {
        let sidechain = match self.is_sidechain {
            Some(b) => b,
            None => false,
        };
        let meta = match self.is_meta {
            Some(b) => b,
            None => false,
        };
        sidechain || meta || self.tool_use_result || self.source_tool_use_id.is_some()
    }

    pub fn into_text(self, tone: Tone) -> (r: Option<(Tone, String)>)
        ensures
            match turn_text(self, tone) {
                Some((k, t)) => r matches Some(p) && p.0 == k && p.1@ == t,
                None => r is None,
            },
    {
        if self.is_noise() {
            return None;
        }
        let ghost whole = self.content;
        let text = self.content.into_text();
        let chars = chars_of(text.as_str());
        let lead = count_lead_ws(&chars, 0, chars.len());
        assert(chars@.subrange(0, chars@.len() as int) =~= chars@);
        if lead == chars.len() {
            return None;
        }
        proof {
            let c = chars@;
            crate::text::lemma_lead_ws_bound(c, 0);
            crate::text::lemma_trail_ws_bound(c, c.len() as int);
            let l = crate::text::lead_ws(c, 0) as int;
            let t = crate::text::trail_ws(c, c.len() as int) as int;
            if c.len() - t <= l {
                assert(crate::text::is_ws(c[l]));
            }
            assert(trim(c).len() > 0);
        }
        let (_, end) = trim_end_bound(&chars);
        let kept = slice_range(&chars, 0, end);
        Some((tone, string_of(&kept)))
    }
}

impl Entry {
    /// The turn's visible text, or `None` if this entry isn't one.
    pub fn into_turn(self) -> (r: Option<(Tone, String)>)
        ensures
            match entry_turn(self) {
                Some((k, t)) => r matches Some(p) && p.0 == k && p.1@ == t,
                None => r is None,
            },
    {
        match self {
            Entry::Assistant(turn) => turn.into_text(Tone::Agent),
            Entry::User(turn) => turn.into_text(Tone::User),
            Entry::Other => None,
        }
    }
}

} // verus!
