//! The markdown written into the agent's input: each quote in one pair of double quotes, its
//! question a blank line below, and a batch of them separated by rules.

use vstd::prelude::*;
use vstd::string::*;

use crate::transcript::entry::join_newline;

verus! {

/// The quoted lines in one pair of double quotes, then the question a blank line below.
pub open spec fn block_spec(lines: Seq<Seq<char>>, question: Option<Seq<char>>) -> Seq<char> {
    let quote = seq!['"'] + join_newline(lines) + seq!['"'];
    match question {
        Some(q) => quote + seq!['\n', '\n'] + q,
        None => quote,
    }
}

/// The views of a slice of strings.
pub open spec fn views(lines: Seq<&str>) -> Seq<Seq<char>> {
    lines.map_values(|l: &str| l@)
}

/// Build the block for one selection: `"quote"`, blank line, question.
///
/// One quote pair wraps the whole range, so fenced code inside it survives byte-for-byte.
pub fn block(lines: &[&str], question: Option<&str>) -> (out: String)
    ensures
        out@ == block_spec(views(lines@), match question {
            Some(q) => Some(q@),
            None => None,
        }),
{
    let ghost all = views(lines@);
    let mut out = String::new();
    out.push('"');
    let mut i: usize = 0;
    while i < lines.len()
        invariant
            i <= lines.len(),
            all == views(lines@),
            out@ == seq!['"'] + join_newline(all.take(i as int)),
        decreases lines.len() - i,
    {
        let ghost prev = all.take(i as int);
        if i > 0 {
            out.push('\n');
        }
        out.append(lines[i]);
        proof {
            let next = all.take(i + 1);
            assert(next.drop_last() =~= prev);
            assert(next.last() == lines@[i as int]@);
            if i == 0 {
                assert(next =~= seq![lines@[0]@]);
            }
            assert(out@ =~= seq!['"'] + join_newline(next));
        }
        i = i + 1;
    }
    proof {
        assert(all.take(all.len() as int) =~= all);
    }
    out.push('"');
    match question {
        Some(q) => {
            out.push('\n');
            out.push('\n');
            out.append(q);
        },
        None => {},
    }
    proof {
        assert(out@ =~= block_spec(all, match question {
            Some(q) => Some(q@),
            None => None,
        }));
    }
    out
}

/// The separator between two blocks of a batch: a rule on a line of its own.
pub open spec fn separator() -> Seq<char> {
    seq!['\n', '\n', '-', '-', '-', '\n', '\n']
}

/// Blocks joined by the separator.
pub open spec fn batch_spec(blocks: Seq<Seq<char>>) -> Seq<char>
    decreases blocks.len(),
{
    if blocks.len() == 0 {
        Seq::empty()
    } else if blocks.len() == 1 {
        blocks[0]
    } else {
        batch_spec(blocks.drop_last()) + separator() + blocks.last()
    }
}

/// The whole batch as one markdown blob, blocks separated by a `---` rule.
pub fn batch(blocks: &[String]) -> (out: String)
    ensures
        out@ == batch_spec(blocks@.map_values(|b: String| b@)),
{
    let ghost all = blocks@.map_values(|b: String| b@);
    let mut out = String::new();
    let mut i: usize = 0;
    while i < blocks.len()
        invariant
            i <= blocks.len(),
            all == blocks@.map_values(|b: String| b@),
            out@ == batch_spec(all.take(i as int)),
        decreases blocks.len() - i,
    {
        let ghost prev = all.take(i as int);
        if i > 0 {
            out.append("\n\n---\n\n");
            proof {
                reveal_strlit("\n\n---\n\n");
            }
        }
        out.append(blocks[i].as_str());
        proof {
            let next = all.take(i + 1);
            assert(next.drop_last() =~= prev);
            if i == 0 {
                assert(next =~= seq![blocks@[0]@]);
            }
            assert(out@ =~= batch_spec(next));
        }
        i = i + 1;
    }
    proof {
        assert(all.take(all.len() as int) =~= all);
    }
    out
}

} // verus!
