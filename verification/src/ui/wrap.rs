//! Greedy word wrap for the reading column.

use vstd::prelude::*;
use vstd::string::*;

use crate::text::string_of;
use crate::transcript::marks::slice_range;
use crate::ui::width::{cols, cols_of, cols_sum, lemma_cols_sum_concat, str_width};

verus! {

/// One display row of a wrapped source line.
#[derive(Debug)]
pub struct Row {
    /// Character offset of this row's first character within the source line.
    pub start: usize,
    pub text: String,
}

impl View for Row {
    type V = (int, Seq<char>);

    open spec fn view(&self) -> (int, Seq<char>) {
        (self.start as int, self.text@)
    }
}

/// Where a wrap stands after some prefix of the line: the rows finished so far, the row being
/// filled, where it starts, and just past its last space.
pub ghost struct Wrapping {
    pub rows: Seq<(int, Seq<char>)>,
    pub row: Seq<char>,
    pub start: int,
    pub after_space: Option<int>,
}

pub open spec fn sat(n: int) -> int {
    if n > usize::MAX {
        usize::MAX as int
    } else {
        n
    }
}

/// Whether `c` would run the row being filled past `width`: only a row that holds something
/// can overflow.
pub open spec fn overflows(w: Wrapping, c: char, width: int) -> bool {
    cols_sum(w.row) + cols(c) > width && w.row.len() > 0
}

/// The row being filled ends at its last space — the word after it is carried down to start
/// the next row — or, with no space inside it, ends whole.
pub open spec fn break_row(w: Wrapping) -> Wrapping {
    let at = match w.after_space {
        Some(a) => if a < w.row.len() {
            a
        } else {
            w.row.len() as int
        },
        None => w.row.len() as int,
    };
    let done = w.row.take(at);
    let carry = w.row.skip(at);
    Wrapping {
        rows: w.rows.push((w.start, done)),
        row: carry,
        start: w.start + done.len(),
        after_space: None,
    }
}

/// One character more. When it would not fit, the row breaks; and when the word carried down
/// still leaves no room for it, that word becomes a row of its own before the character.
pub open spec fn wrap_step(w: Wrapping, c: char, width: int) -> Wrapping {
    let broken = if overflows(w, c, width) {
        let once = break_row(w);
        if overflows(once, c, width) {
            break_row(once)
        } else {
            once
        }
    } else {
        w
    };
    let row = broken.row.push(c);
    Wrapping {
        row,
        after_space: if c == ' ' {
            Some(row.len() as int)
        } else {
            broken.after_space
        },
        ..broken
    }
}

/// The wrap after the first `k` characters of `text`.
pub open spec fn wrap_prefix(text: Seq<char>, k: nat, width: int) -> Wrapping
    decreases k,
{
    if k == 0 || k > text.len() {
        Wrapping { rows: Seq::empty(), row: Seq::empty(), start: 0, after_space: None }
    } else {
        wrap_step(wrap_prefix(text, (k - 1) as nat, width), text[k - 1], width)
    }
}

/// `text` wrapped to `width` columns: every finished row, then the last one. A blank line is
/// one empty row.
pub open spec fn wrap_spec(text: Seq<char>, width: int) -> Seq<(int, Seq<char>)> {
    if text.len() == 0 {
        seq![(0int, Seq::<char>::empty())]
    } else {
        let w = wrap_prefix(text, text.len(), width);
        w.rows.push((w.start, w.row))
    }
}

/// The rows' texts, end to end.
pub open spec fn joined(rows: Seq<(int, Seq<char>)>) -> Seq<char>
    decreases rows.len(),
{
    if rows.len() == 0 {
        Seq::empty()
    } else {
        joined(rows.drop_last()) + rows.last().1
    }
}

/// What holds of the wrap at every prefix: the rows and the open row spell the prefix, and
/// each row starts where the ones before it end.
pub open spec fn wrap_inv(text: Seq<char>, k: nat, w: Wrapping) -> bool {
    &&& joined(w.rows) + w.row == text.take(k as int)
    &&& w.start == joined(w.rows).len()
    &&& starts_line_up(w.rows)
    &&& (w.after_space matches Some(a) ==> 0 < a <= w.row.len())
}

proof fn lemma_joined_push(rows: Seq<(int, Seq<char>)>, r: (int, Seq<char>))
    ensures
        joined(rows.push(r)) == joined(rows) + r.1,
        rows.push(r).take(rows.len() as int) == rows,
{
    assert(rows.push(r).drop_last() =~= rows);
    assert(rows.push(r).take(rows.len() as int) =~= rows);
}

/// The row positions agree with the rows before them.
pub open spec fn starts_line_up(rows: Seq<(int, Seq<char>)>) -> bool {
    forall|j: int| 0 <= j < rows.len() ==> #[trigger] rows[j].0 == joined(rows.take(j)).len()
}

/// Breaking the row loses no character and keeps every row where the rows before it end.
proof fn lemma_break_row(w: Wrapping)
    requires
        w.start == joined(w.rows).len(),
        starts_line_up(w.rows),
        w.after_space matches Some(a) ==> 0 < a <= w.row.len(),
    ensures
        joined(break_row(w).rows) + break_row(w).row == joined(w.rows) + w.row,
        break_row(w).start == joined(break_row(w).rows).len(),
        starts_line_up(break_row(w).rows),
        break_row(w).after_space is None,
        break_row(w).rows.len() == w.rows.len() + 1,
{
    let b = break_row(w);
    let at = w.row.len() - b.row.len();
    let done = w.row.take(at);
    lemma_joined_push(w.rows, (w.start, done));
    assert(done + b.row =~= w.row);
    assert(joined(b.rows) + b.row =~= joined(w.rows) + w.row);
    assert forall|j: int| 0 <= j < b.rows.len() implies #[trigger] b.rows[j].0 == joined(
        b.rows.take(j),
    ).len() by {
        if j < w.rows.len() {
            assert(b.rows.take(j) =~= w.rows.take(j));
        }
    }
}

pub proof fn lemma_wrap_inv(text: Seq<char>, k: nat, width: int)
    requires
        k <= text.len(),
    ensures
        wrap_inv(text, k, wrap_prefix(text, k, width)),
    decreases k,
{
    if k == 0 {
        assert(text.take(0) =~= Seq::<char>::empty());
        assert(joined(Seq::<(int, Seq<char>)>::empty()) + Seq::<char>::empty() =~= Seq::<char>::empty());
    } else {
        lemma_wrap_inv(text, (k - 1) as nat, width);
        let w = wrap_prefix(text, (k - 1) as nat, width);
        let c = text[k - 1];
        assert(text.take(k as int) =~= text.take(k - 1).push(c));
        let broken = if overflows(w, c, width) {
            let once = break_row(w);
            lemma_break_row(w);
            if overflows(once, c, width) {
                lemma_break_row(once);
                break_row(once)
            } else {
                once
            }
        } else {
            w
        };
        assert(joined(broken.rows) + broken.row.push(c) =~= (joined(broken.rows) + broken.row).push(c));
    }
}

proof fn lemma_prefix_rows(text: Seq<char>, k: nat, width: int)
    requires
        k <= text.len(),
    ensures
        k == 0 ==> wrap_prefix(text, k, width).rows.len() == 0 && wrap_prefix(text, k, width).row.len() == 0,
        wrap_prefix(text, k, width).rows.len() <= wrap_prefix(text, k, width).start,
        k > 0 ==> wrap_prefix(text, k, width).row.len() >= 1,
        k > 0 ==> wrap_prefix(text, k, width).rows.len() + 1 <= k,
    decreases k,
{
    lemma_wrap_inv(text, k, width);
    let w = wrap_prefix(text, k, width);
    assert((joined(w.rows) + w.row).len() == text.take(k as int).len());
    if k > 0 {
        lemma_prefix_rows(text, (k - 1) as nat, width);
        lemma_wrap_inv(text, (k - 1) as nat, width);
    }
}

/// A wrap never has more rows than its text has characters, save the one row of a blank line.
pub proof fn lemma_wrap_len(text: Seq<char>, width: int)
    ensures
        wrap_spec(text, width).len() <= text.len() + 1,
        text.len() > 0 ==> wrap_spec(text, width).len() <= text.len(),
{
    if text.len() > 0 {
        lemma_prefix_rows(text, text.len(), width);
    }
}

/// Rows concatenate back to `text`, so a display break never leaks into a quote; and each row
/// knows where it starts in the source line.
pub proof fn law_rows_rejoin(text: Seq<char>, width: int)
    ensures
        joined(wrap_spec(text, width)) == text,
        forall|j: int|
            0 <= j < wrap_spec(text, width).len() ==> #[trigger] wrap_spec(text, width)[j].0
                == joined(wrap_spec(text, width).take(j)).len(),
{
    if text.len() == 0 {
        let rows = seq![(0int, Seq::<char>::empty())];
        assert(rows.drop_last() =~= Seq::<(int, Seq<char>)>::empty());
        assert(joined(rows) == joined(rows.drop_last()) + rows.last().1);
        assert(text.len() == 0);
        assert(joined(rows) =~= text);
        assert(rows.take(0) =~= Seq::<(int, Seq<char>)>::empty());
    } else {
        lemma_wrap_inv(text, text.len(), width);
        let w = wrap_prefix(text, text.len(), width);
        lemma_joined_push(w.rows, (w.start, w.row));
        assert(text.take(text.len() as int) =~= text);
        let rows = w.rows.push((w.start, w.row));
        assert forall|j: int| 0 <= j < rows.len() implies #[trigger] rows[j].0 == joined(
            rows.take(j),
        ).len() by {
            if j < w.rows.len() {
                assert(rows.take(j) =~= w.rows.take(j));
            }
        }
    }
}

/// Measuring any piece of `text` whole gives what its characters add up to — as it does for
/// text without the sequences `unicode-width` measures as one: a `\r\n`, emoji joined by a
/// zero-width joiner or followed by a variation selector, and the like.
pub open spec fn widths_add_up(text: Seq<char>) -> bool {
    forall|i: int, j: int|
        0 <= i <= j <= text.len() ==> str_width(#[trigger] text.subrange(i, j)) as int == cols_sum(
            text.subrange(i, j),
        )
}

/// A finished row fits the column, its characters laid out one at a time, unless it is one
/// character.
pub open spec fn row_fits(r: Seq<char>, width: int) -> bool {
    cols_sum(r) <= width || r.len() == 1
}

/// Each finished row is the piece of `text` it starts at.
pub open spec fn rows_are_pieces(text: Seq<char>, rows: Seq<(int, Seq<char>)>) -> bool {
    forall|j: int|
        #![trigger rows[j]]
        0 <= j < rows.len() ==> {
            &&& 0 <= rows[j].0
            &&& rows[j].0 + rows[j].1.len() <= text.len()
            &&& rows[j].1 == text.subrange(rows[j].0, rows[j].0 + rows[j].1.len())
        }
}

/// What the greedy fill keeps: the open row fits unless it holds at most one character, and
/// every finished row fits.
pub open spec fn fits_inv(w: Wrapping, width: int) -> bool {
    &&& (cols_sum(w.row) <= width || w.row.len() <= 1)
    &&& forall|j: int| 0 <= j < w.rows.len() ==> #[trigger] row_fits(w.rows[j].1, width)
}

proof fn lemma_break_fits(text: Seq<char>, w: Wrapping, width: int, k: int)
    requires
        0 <= w.start <= k <= text.len(),
        w.row =~= text.subrange(w.start, k),
        w.row.len() > 0,
        w.after_space matches Some(a) ==> 0 < a <= w.row.len(),
        fits_inv(w, width),
        rows_are_pieces(text, w.rows),
    ensures
        fits_inv(break_row(w), width),
        rows_are_pieces(text, break_row(w).rows),
        break_row(w).row =~= text.subrange(break_row(w).start, k),
        w.start <= break_row(w).start <= k,
        w.row.len() <= 1 ==> break_row(w).row.len() == 0,
        w.after_space is None ==> break_row(w).row.len() == 0,
{
    let b = break_row(w);
    let at = w.row.len() - b.row.len();
    let done = w.row.take(at);
    let carry = b.row;
    assert(done + carry =~= w.row);
    lemma_cols_sum_concat(done, carry);
    lemma_cols_sum_concat(Seq::<char>::empty(), done);
    assert(Seq::<char>::empty() + done =~= done);
    assert(done =~= text.subrange(w.start, w.start + at));
    assert(carry =~= text.subrange(w.start + at, k));
    assert forall|j: int| 0 <= j < b.rows.len() implies #[trigger] row_fits(b.rows[j].1, width) by {
        if j == w.rows.len() {
            assert(b.rows[j].1 == done);
        } else {
            assert(b.rows[j] == w.rows[j]);
        }
    }
    assert forall|j: int| #![trigger b.rows[j]] 0 <= j < b.rows.len() implies {
        &&& 0 <= b.rows[j].0
        &&& b.rows[j].0 + b.rows[j].1.len() <= text.len()
        &&& b.rows[j].1 == text.subrange(b.rows[j].0, b.rows[j].0 + b.rows[j].1.len())
    } by {
        if j < w.rows.len() {
            assert(b.rows[j] == w.rows[j]);
        } else {
            assert(b.rows[j] == (w.start, done));
            assert(done.len() == at);
        }
    }
    assert(rows_are_pieces(text, b.rows));
}

proof fn lemma_fits_inv(text: Seq<char>, k: nat, width: int)
    requires
        k <= text.len(),
    ensures
        fits_inv(wrap_prefix(text, k, width), width),
        rows_are_pieces(text, wrap_prefix(text, k, width).rows),
        wrap_prefix(text, k, width).row =~= text.subrange(wrap_prefix(text, k, width).start, k as int),
        0 <= wrap_prefix(text, k, width).start <= k,
    decreases k,
{
    if k == 0 {
        assert(text.subrange(0, 0) =~= Seq::<char>::empty());
    } else {
        let kk = (k - 1) as int;
        lemma_fits_inv(text, (k - 1) as nat, width);
        lemma_wrap_inv(text, (k - 1) as nat, width);
        let w = wrap_prefix(text, (k - 1) as nat, width);
        let c = text[kk];
        let broken = if overflows(w, c, width) {
            lemma_break_fits(text, w, width, kk);
            let once = break_row(w);
            if overflows(once, c, width) {
                lemma_break_fits(text, once, width, kk);
                break_row(once)
            } else {
                once
            }
        } else {
            w
        };
        assert(!overflows(broken, c, width));
        let row = broken.row.push(c);
        assert(row.drop_last() =~= broken.row);
        assert(row =~= text.subrange(broken.start, k as int));
        assert(cols_sum(row) == cols_sum(broken.row) + cols(c));
        if broken.row.len() == 0 {
            assert(row.len() == 1);
        }
    }
}

/// Every row fits the column but a lone character wider than it: laid out one character at a
/// time, each row takes at most `width` columns, or is a single character.
pub proof fn law_rows_fit(text: Seq<char>, width: int)
    requires
        0 <= width,
    ensures
        forall|j: int|
            0 <= j < wrap_spec(text, width).len() ==> cols_sum(#[trigger] wrap_spec(text, width)[j].1) <= width
                || wrap_spec(text, width)[j].1.len() == 1,
{
    let rows = wrap_spec(text, width);
    if text.len() == 0 {
        assert(rows[0].1 =~= Seq::<char>::empty());
    } else {
        let n = text.len();
        lemma_fits_inv(text, n, width);
        let w = wrap_prefix(text, n, width);
        assert forall|j: int| 0 <= j < rows.len() implies cols_sum(#[trigger] rows[j].1) <= width || rows[j].1.len()
            == 1 by {
            if j < w.rows.len() {
                assert(row_fits(w.rows[j].1, width));
            } else {
                assert(rows[j].1 == w.row);
                if w.row.len() == 0 {
                    lemma_wrap_inv(text, n, width);
                    assert((joined(w.rows) + w.row).len() == n);
                    lemma_prefix_rows(text, n, width);
                }
            }
        }
    }
}

/// Measured whole by `unicode-width`, every row fits the column but a lone character wider
/// than it — where the widths of the text's pieces add up.
pub proof fn law_rows_measure_within(text: Seq<char>, width: int)
    requires
        0 <= width,
        widths_add_up(text),
    ensures
        forall|j: int|
            0 <= j < wrap_spec(text, width).len() ==> str_width(#[trigger] wrap_spec(text, width)[j].1)
                <= width || wrap_spec(text, width)[j].1.len() == 1,
{
    law_rows_fit(text, width);
    let rows = wrap_spec(text, width);
    if text.len() == 0 {
        assert(text.subrange(0, 0) =~= Seq::<char>::empty());
        assert(rows[0].1 =~= text.subrange(0, 0));
    } else {
        let n = text.len();
        lemma_fits_inv(text, n, width);
        let w = wrap_prefix(text, n, width);
        assert forall|j: int| 0 <= j < rows.len() implies str_width(#[trigger] rows[j].1) <= width
            || rows[j].1.len() == 1 by {
            assert(cols_sum(rows[j].1) <= width || rows[j].1.len() == 1);
            if j < w.rows.len() {
                assert(rows[j] == w.rows[j]);
            } else {
                assert(rows[j].1 == text.subrange(w.start, n as int));
            }
        }
    }
}

/// The rows before row `j`, end to end, followed by row `j`, are the rows up to it; and any
/// leading run of rows is no longer than all of them.
proof fn lemma_joined_take(rows: Seq<(int, Seq<char>)>, j: int)
    requires
        0 <= j <= rows.len(),
    ensures
        joined(rows.take(j)).len() <= joined(rows).len(),
        j < rows.len() ==> joined(rows.take(j + 1)) == joined(rows.take(j)) + rows[j].1,
    decreases rows.len(),
{
    if j < rows.len() {
        assert(rows.take(j + 1).drop_last() =~= rows.take(j));
        assert(rows.take(j + 1).last() == rows[j]);
        let front = rows.drop_last();
        assert(rows.take(j) =~= front.take(j));
        lemma_joined_take(front, j);
    } else {
        assert(rows.take(j) =~= rows);
    }
}

/// Every row ends inside the text it was wrapped from.
pub proof fn lemma_rows_inside(text: Seq<char>, width: int)
    ensures
        forall|j: int|
            0 <= j < wrap_spec(text, width).len() ==> #[trigger] wrap_spec(text, width)[j].0 + wrap_spec(text, width)[j].1.len()
                <= text.len() && 0 <= wrap_spec(text, width)[j].0,
{
    let rows = wrap_spec(text, width);
    if text.len() > 0 {
        law_rows_rejoin(text, width);
        assert forall|j: int| 0 <= j < rows.len() implies #[trigger] rows[j].0 + rows[j].1.len() <= text.len() && 0 <= rows[j].0 by {
            lemma_joined_take(rows, j);
            lemma_joined_take(rows, j + 1);
        }
    }
}

/// Wrap `text` to `width` columns, breaking inside a word only when the word is longer.
///
/// Rows concatenate back to `text`, so a display break never leaks into a quote. Each row is
/// measured one character at a time, as it is filled.
#[verifier::rlimit(50)]
pub fn wrap(text: &str, width: usize) -> (rows: Vec<Row>)
    ensures
        rows@.map_values(|r: Row| r@) == wrap_spec(text@, width as int),
        forall|j: int| 0 <= j < rows@.len() ==> cols_sum((#[trigger] rows@[j]).text@) <= width || rows@[j].text@.len() == 1,
{
    let chars = crate::text::chars_of(text);
    proof {
        law_rows_fit(text@, width as int);
    }
    if chars.len() == 0 {
        let rows = vec![Row { start: 0, text: String::new() }];
        assert(rows@.map_values(|r: Row| r@) =~= seq![(0int, Seq::<char>::empty())]);
        assert(rows@[0].text@ == wrap_spec(text@, width as int)[0].1);
        return rows;
    }
    let ghost t = chars@;
    let mut rows: Vec<Row> = Vec::new();
    let mut row: Vec<char> = Vec::new();
    let mut start: usize = 0;
    let mut used: usize = 0;
    let mut after_space: Option<usize> = None;
    let mut k: usize = 0;
    while k < chars.len()
        invariant
            t == chars@,
            k <= chars@.len(),
            ({
                let w = wrap_prefix(t, k as nat, width as int);
                &&& rows@.map_values(|r: Row| r@) == w.rows
                &&& row@ == w.row
                &&& start == w.start
                &&& used == cols_sum(w.row)
                &&& after_space == (match w.after_space {
                    Some(a) => Some(a as usize),
                    None => None::<usize>,
                })
            }),
        decreases chars.len() - k,
    {
        proof {
            lemma_wrap_inv(t, k as nat, width as int);
            lemma_fits_inv(t, k as nat, width as int);
            let w0 = wrap_prefix(t, k as nat, width as int);
            assert(joined(w0.rows) + w0.row == t.take(k as int));
            assert(w0.start + w0.row.len() == k);
        }
        let ch = chars[k];
        let w = cols_of(ch);
        let ghost w0 = wrap_prefix(t, k as nat, width as int);
        assert(overflows(w0, ch, width as int) == (row.len() > 0 && (used > width || w > width - used)));
        if row.len() > 0 && (used > width || w > width - used) {
            let at = match after_space {
                Some(a) => if a < row.len() {
                    a
                } else {
                    row.len()
                },
                None => row.len(),
            };
            let done = slice_range(&row, 0, at);
            let carry = slice_range(&row, at, row.len());
            let taken = done.len();
            let ghost before = rows@.map_values(|r: Row| r@);
            rows.push(Row { start, text: string_of(&done) });
            proof {
                assert(rows@.map_values(|r: Row| r@) =~= before.push((start as int, done@)));
                assert(done@ =~= row@.take(at as int));
                assert(carry@ =~= row@.skip(at as int));
                assert(done@ + carry@ =~= row@);
                lemma_cols_sum_concat(done@, carry@);
                lemma_cols_sum_concat(Seq::<char>::empty(), done@);
                assert(Seq::<char>::empty() + done@ =~= done@);
            }
            start = start + taken;
            used = crate::ui::width::cols_total(carry.as_slice());
            after_space = None;
            row = carry;
            proof {
                lemma_break_row(w0);
                let once = break_row(w0);
                assert(once.row == row@);
                assert(used == cols_sum(once.row));
                assert(start + row@.len() <= t.len()) by {
                    assert((joined(once.rows) + once.row).len() == (joined(w0.rows) + w0.row).len());
                }
                assert(overflows(once, ch, width as int) == (row.len() > 0 && (used > width || w > width - used)));
            }
            if row.len() > 0 && (used > width || w > width - used) {
                let ghost before2 = rows@.map_values(|r: Row| r@);
                let taken2 = row.len();
                rows.push(Row { start, text: string_of(&row) });
                proof {
                    assert(rows@.map_values(|r: Row| r@) =~= before2.push((start as int, row@)));
                    assert(row@.take(row@.len() as int) =~= row@);
                    assert(row@.skip(row@.len() as int) =~= Seq::<char>::empty());
                }
                start = start + taken2;
                used = 0;
                row = Vec::new();
            }
        }
        let ghost pre_row = row@;
        proof {
            assert(row@.len() == 0 || (used <= width && w <= width - used));
        }
        row.push(ch);
        used = used + w;
        if ch == ' ' {
            after_space = Some(row.len());
        }
        proof {
            assert(t.take(k + 1).drop_last() =~= t.take(k as int));
            assert(row@.drop_last() =~= pre_row);
            assert(cols_sum(row@) == cols_sum(pre_row) + cols(ch));
        }
        k = k + 1;
    }
    let ghost before = rows@.map_values(|r: Row| r@);
    rows.push(Row { start, text: string_of(&row) });
    proof {
        assert(t.take(t.len() as int) =~= t);
        assert(rows@.map_values(|r: Row| r@) =~= before.push((start as int, row@)));
        assert forall|j: int| 0 <= j < rows@.len() implies cols_sum((#[trigger] rows@[j]).text@) <= width || rows@[j].text@.len() == 1 by {
            assert(rows@[j].text@ == rows@.map_values(|r: Row| r@)[j].1);
            assert(rows@[j].text@ == wrap_spec(text@, width as int)[j].1);
        }
    }
    rows
}

/// Characters `from..to` of `text`, clamped — the display-side twin of slicing a source line.
pub open spec fn cut_spec(text: Seq<char>, from: int, to: int) -> Seq<char> {
    let a = if from < text.len() { from } else { text.len() as int };
    let b = if to < from { a } else if to < text.len() { to } else { text.len() as int };
    text.subrange(a, b)
}

/// Characters `from..to` of `text`, clamped — the display-side twin of slicing a source line.
pub fn cut(text: &str, from: usize, to: usize) -> (out: &str)
    ensures
        out@ == cut_spec(text@, from as int, to as int),
{
    let n = text.unicode_len();
    let a = if from < n { from } else { n };
    let b = if to < from { a } else if to < n { to } else { n };
    text.substring_char(a, b)
}

} // verus!
