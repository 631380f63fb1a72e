//! The quote+question pairs waiting to go out together, in the order they were banked.

use vstd::prelude::*;

use crate::markup::Pos;

verus! {

/// One quote and the question that goes under it.
#[derive(Debug, Clone)]
pub struct Pair {
    pub from: Pos,
    pub to: Pos,
    /// Empty for a bare quote — the block is then just the quoted lines.
    pub question: String,
}

/// A pair as the contracts see it: where its quote runs, and its question.
pub type PairView = (Pos, Pos, Seq<char>);

impl Pair {
    /// The same pair, its question copied.
    pub fn copy(&self) -> (p: Pair)
        ensures
            p@ == self@,
    {
        Pair { from: self.from, to: self.to, question: self.question.clone() }
    }
}

impl View for Pair {
    type V = PairView;

    open spec fn view(&self) -> PairView {
        (self.from, self.to, self.question@)
    }
}

/// Whether a pair's range covers `line`, ends included.
pub open spec fn covers(p: PairView, line: int) -> bool {
    p.0.line <= line <= p.1.line
}

/// The first pair at or after `i` whose range covers `line`.
pub open spec fn first_covering(pairs: Seq<PairView>, line: int, i: int) -> Option<int>
    decreases pairs.len() - i,
{
    if i < 0 || i >= pairs.len() {
        None
    } else if covers(pairs[i], line) {
        Some(i)
    } else {
        first_covering(pairs, line, i + 1)
    }
}

pub proof fn lemma_first_covering(pairs: Seq<PairView>, line: int, i: int)
    requires
        0 <= i,
    ensures
        first_covering(pairs, line, i) is Some ==> {
            let k = first_covering(pairs, line, i).unwrap();
            &&& i <= k < pairs.len()
            &&& covers(pairs[k], line)
            &&& forall|j: int| i <= j < k ==> !covers(#[trigger] pairs[j], line)
        },
        first_covering(pairs, line, i) is None ==> forall|j: int|
            i <= j < pairs.len() ==> !covers(#[trigger] pairs[j], line),
    decreases pairs.len() - i,
{
    if i < pairs.len() && !covers(pairs[i], line) {
        lemma_first_covering(pairs, line, i + 1);
    }
}

/// The batch `S` sends, in the order the pairs were banked.
#[derive(Debug)]
pub struct Bank {
    pairs: Vec<Pair>,
}

impl View for Bank {
    type V = Seq<PairView>;

    closed spec fn view(&self) -> Seq<PairView> {
        self.pairs@.map_values(|p: Pair| p@)
    }
}

impl Default for Bank {
    fn default() -> (b: Self)
        ensures
            b@ == Seq::<PairView>::empty(),
    {
        let b = Bank { pairs: Vec::new() };
        assert(b@ =~= Seq::<PairView>::empty());
        b
    }
}

impl From<Vec<Pair>> for Bank {
    fn from(pairs: Vec<Pair>) -> (b: Self) {
        Bank { pairs }
    }
}

impl vstd::std_specs::convert::FromSpecImpl<Vec<Pair>> for Bank {
    open spec fn obeys_from_spec() -> bool {
        true
    }

    closed spec fn from_spec(pairs: Vec<Pair>) -> Bank {
        Bank { pairs }
    }
}

/// A bank built from `pairs` holds them all, in the same order.
pub proof fn lemma_from(pairs: Vec<Pair>)
    ensures
        <Bank as vstd::std_specs::convert::FromSpec<Vec<Pair>>>::from_spec(pairs)@
            == pairs@.map_values(|p: Pair| p@),
{
}

impl Bank {
    pub fn len(&self) -> (n: usize)
        ensures
            n == self@.len(),
    {
        self.pairs.len()
    }

    pub fn is_empty(&self) -> (b: bool)
        ensures
            b == (self@.len() == 0),
    {
        self.pairs.len() == 0
    }

    /// The pairs, in bank order.
    pub fn iter(&self) -> (out: &[Pair])
        ensures
            out@.map_values(|p: Pair| p@) == self@,
    {
        self.pairs.as_slice()
    }

    pub fn get(&self, index: usize) -> (r: Option<&Pair>)
        ensures
            index < self@.len() ==> r is Some && r.unwrap()@ == self@[index as int],
            index >= self@.len() ==> r is None,
    {
        if index < self.pairs.len() {
            Some(&self.pairs[index])
        } else {
            None
        }
    }

    /// Append a pair; returns its index.
    pub fn add(&mut self, pair: Pair) -> (index: usize)
        ensures
            final(self)@ == old(self)@.push(pair@),
            index == old(self)@.len(),
    {
        let ghost p = pair@;
        self.pairs.push(pair);
        assert(self@ =~= old(self)@.push(p));
        self.pairs.len() - 1
    }

    /// Replace the question of the pair at `index`, leaving its quote alone. An index past
    /// the end changes nothing.
    pub fn set_question(&mut self, index: usize, question: String)
        ensures
            index < old(self)@.len() ==> final(self)@ == old(self)@.update(
                index as int,
                (old(self)@[index as int].0, old(self)@[index as int].1, question@),
            ),
            index >= old(self)@.len() ==> final(self)@ == old(self)@,
    {
        if index < self.pairs.len() {
            let ghost q = question@;
            let mut pair = self.pairs[index].clone();
            pair.from = self.pairs[index].from;
            pair.to = self.pairs[index].to;
            pair.question = question;
            self.pairs.set(index, pair);
            assert(self@ =~= old(self)@.update(
                index as int,
                (old(self)@[index as int].0, old(self)@[index as int].1, q),
            ));
        }
    }

    /// Drop the pair at `index`. The ones after it shift down, so the gutter renumbers. An
    /// index past the end changes nothing.
    pub fn remove(&mut self, index: usize)
        ensures
            index < old(self)@.len() ==> final(self)@ == old(self)@.remove(index as int),
            index >= old(self)@.len() ==> final(self)@ == old(self)@,
    {
        if index < self.pairs.len() {
            self.pairs.remove(index);
            assert(self@ =~= old(self)@.remove(index as int));
        }
    }

    /// The pair whose range covers `line` — what `e` and `d` act on. First one wins, so
    /// overlapping pairs are reached in bank order.
    pub fn at_line(&self, line: usize) -> (r: Option<usize>)
        ensures
            match r {
                Some(k) => first_covering(self@, line as int, 0) == Some(k as int),
                None => first_covering(self@, line as int, 0) is None,
            },
    {
        let mut i: usize = 0;
        while i < self.pairs.len()
            invariant
                i <= self.pairs.len(),
                first_covering(self@, line as int, 0) == first_covering(self@, line as int, i as int),
            decreases self.pairs.len() - i,
        {
            let pair = &self.pairs[i];
            assert(self@[i as int] == pair@);
            if pair.from.line <= line && line <= pair.to.line {
                return Some(i);
            }
            i = i + 1;
        }
        None
    }
}

/// Deleting a pair renumbers the rest: a line the deleted pair did not cover is still found
/// in the same pair, which now sits one place lower when it came after the deleted one.
pub proof fn law_delete_renumbers(pairs: Seq<PairView>, index: int, line: int)
    requires
        0 <= index < pairs.len(),
        !covers(pairs[index], line),
    ensures
        first_covering(pairs.remove(index), line, 0) == match first_covering(pairs, line, 0) {
            Some(k) => Some(if k > index { k - 1 } else { k }),
            None => None,
        },
{
    let after = pairs.remove(index);
    lemma_first_covering(pairs, line, 0);
    lemma_first_covering(after, line, 0);
    assert forall|j: int| 0 <= j < after.len() implies #[trigger] after[j] == if j < index {
        pairs[j]
    } else {
        pairs[j + 1]
    } by {}
    match first_covering(pairs, line, 0) {
        Some(k) => {
            let m = if k > index { k - 1 } else { k };
            assert(covers(after[m], line));
            if first_covering(after, line, 0) is Some {
                let n = first_covering(after, line, 0).unwrap();
                if n < m {
                    let o = if n < index { n } else { n + 1 };
                    assert(covers(pairs[o], line));
                    assert(false);
                }
                if m < n {
                    assert(!covers(after[m], line));
                }
            }
        },
        None => {
            if first_covering(after, line, 0) is Some {
                let n = first_covering(after, line, 0).unwrap();
                let o = if n < index { n } else { n + 1 };
                assert(covers(pairs[o], line));
            }
        },
    }
}

} // verus!
