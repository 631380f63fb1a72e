//! Pipe tables drawn as a grid, the one construct the picker renders rather than styles.
//!
//! A grid pads its cells and adds a border above and below, so display characters stop
//! matching source characters. Selection inside a rendered table is therefore linewise —
//! whole rows — and the quote still comes from the transcript, so it goes out as the
//! `| a | b |` markdown the agent wrote.

use vstd::prelude::*;
use vstd::string::*;

use crate::text::{chars_of, count_lead_ws, count_trail_ws, lead_ws, push_repeat, repeat, string_of, trail_ws};
use crate::ui::width::{cols, cols_held, cols_of_str, cols_sum, lemma_cols_sum_concat, width_of_char};
use crate::markup::{shifted, Block, Span, Tone};
use crate::transcript::markdown::trail_run;
use crate::transcript::marks::{run_len, slice_range};

verus! {

/// Where a cell's content sits, from the `:---:` delimiter row.
#[derive(Debug, Clone, Copy, PartialEq, Eq, Structural)]
pub enum Align {
    Left,
    Center,
    Right,
}

/// One cell's text and where it started in the source row, which is what carries the row's
/// emphasis spans across the padding into the grid.
#[derive(Debug, Clone)]
pub struct Cell {
    pub at: usize,
    pub text: String,
}

impl View for Cell {
    type V = (int, Seq<char>);

    open spec fn view(&self) -> (int, Seq<char>) {
        (self.at as int, self.text@)
    }
}

/// Spaces running from `i` up to `to`.
pub open spec fn sp_lead(s: Seq<char>, i: int, to: int) -> nat
    decreases to - i,
{
    if 0 <= i < to && to <= s.len() && s[i] == ' ' {
        1 + sp_lead(s, i + 1, to)
    } else {
        0
    }
}

/// Spaces running back from just before `j`, down to `from`.
pub open spec fn sp_trail(s: Seq<char>, from: int, j: int) -> nat
    decreases j - from,
{
    if 0 <= from < j <= s.len() && s[j - 1] == ' ' {
        1 + sp_trail(s, from, j - 1)
    } else {
        0
    }
}

/// One cell: the characters `from..to` with their surrounding spaces dropped, and where what
/// is left starts.
pub open spec fn cell_spec(s: Seq<char>, from: int, to: int) -> (int, Seq<char>) {
    let lead = sp_lead(s, from, to);
    let trail = sp_trail(s, from + lead, to);
    (from + lead, s.subrange(from + lead, to - trail))
}

pub proof fn lemma_sp(s: Seq<char>, from: int, to: int)
    requires
        0 <= from <= to <= s.len(),
    ensures
        from + sp_lead(s, from, to) <= to,
        sp_trail(s, from, to) <= to - from,
    decreases to - from,
{
    if from < to {
        lemma_sp(s, from + 1, to);
        lemma_sp(s, from, to - 1);
    }
}

pub fn cell(chars: &[char], from: usize, to: usize) -> (c: Cell)
    requires
        from <= to <= chars@.len(),
    ensures
        c@ == cell_spec(chars@, from as int, to as int),
{
    let ghost s = chars@;
    let mut i = from;
    while i < to && chars[i] == ' '
        invariant
            from <= i <= to <= s.len(),
            s == chars@,
            sp_lead(s, from as int, to as int) == (i - from) + sp_lead(s, i as int, to as int),
        decreases to - i,
    {
        i = i + 1;
    }
    let mut j = to;
    while j > i && chars[j - 1] == ' '
        invariant
            i <= j <= to <= s.len(),
            s == chars@,
            sp_trail(s, i as int, to as int) == (to - j) + sp_trail(s, i as int, j as int),
        decreases j - i,
    {
        j = j - 1;
    }
    Cell { at: i, text: string_of(&slice_range(chars, i, j)) }
}

/// The cells of `s[from..end]` as the bars at and after `k` cut it, the first one opening at
/// `from`. The stretch after the last bar is a cell only when it holds anything.
pub open spec fn split_from(s: Seq<char>, from: int, k: int, end: int) -> Seq<(int, Seq<char>)>
    decreases end - k,
{
    if k >= end {
        if from < end {
            seq![cell_spec(s, from, end)]
        } else {
            Seq::empty()
        }
    } else if s[k] == '|' {
        seq![cell_spec(s, from, k)] + split_from(s, k + 1, k + 1, end)
    } else {
        split_from(s, from, k + 1, end)
    }
}

/// A row's cells, or `None` when the line is not a pipe-table row: past its leading
/// whitespace it must open with `|`, and it runs to its last character that is not.
pub open spec fn cells_spec(s: Seq<char>) -> Option<Seq<(int, Seq<char>)>> {
    let start = lead_ws(s, 0) as int;
    if start >= s.len() || s[start] != '|' {
        None
    } else {
        let end = s.len() - trail_ws(s, s.len() as int);
        Some(split_from(s, start + 1, start + 1, end))
    }
}

pub open spec fn cell_views(cells: Seq<Cell>) -> Seq<(int, Seq<char>)> {
    cells.map_values(|c: Cell| c@)
}

pub fn cells(chars: &[char]) -> (r: Option<Vec<Cell>>)
    ensures
        match cells_spec(chars@) {
            None => r is None,
            Some(cs) => r is Some && cell_views(r.unwrap()@) == cs,
        },
{
    let ghost s = chars@;
    let len = chars.len();
    let start = count_lead_ws(chars, 0, len);
    assert(s.subrange(0, len as int) =~= s);
    if start >= len || chars[start] != '|' {
        return None;
    }
    let trail = count_trail_ws(chars, 0, len);
    proof {
        crate::text::lemma_lead_ws_bound(s, 0);
        crate::text::lemma_trail_ws_bound(s, s.len() as int);
        if trail + start >= len {
            assert(crate::text::is_ws(s[start as int]));
        }
    }
    let end = len - trail;
    let ghost total = split_from(s, start + 1, start + 1, end as int);
    let mut out: Vec<Cell> = Vec::new();
    let mut from = start + 1;
    let mut k = start + 1;
    while k < end
        invariant
            start + 1 <= from <= k <= end <= len == s.len(),
            s == chars@,
            total == split_from(s, start + 1, start + 1, end as int),
            cell_views(out@) + split_from(s, from as int, k as int, end as int) == total,
        decreases end - k,
    {
        if chars[k] == '|' {
            let c = cell(chars, from, k);
            let ghost before = cell_views(out@);
            out.push(c);
            assert(cell_views(out@) =~= before.push(c@));
            assert(cell_views(out@) + split_from(s, (k + 1) as int, (k + 1) as int, end as int)
                =~= before + split_from(s, from as int, k as int, end as int));
            from = k + 1;
        }
        k = k + 1;
    }
    if from < end {
        let c = cell(chars, from, end);
        let ghost before = cell_views(out@);
        out.push(c);
        assert(cell_views(out@) =~= before.push(c@));
        assert(cell_views(out@) =~= before + split_from(s, from as int, k as int, end as int));
    } else {
        assert(cell_views(out@) =~= cell_views(out@) + split_from(s, from as int, k as int, end as int));
    }
    Some(out)
}

/// What a delimiter cell says of its column: `:` marks the side the content sits against.
/// `None` when the cell is not a delimiter at all — at least two characters, and dashes
/// between whatever colons it opens and closes with.
pub open spec fn align_spec(c: Seq<char>) -> Option<Align> {
    if c.len() < 2 || dashes_of(c).len() == 0 || !all_dashes(dashes_of(c)) {
        None
    } else if c[0] == ':' && c[c.len() - 1] == ':' {
        Some(Align::Center)
    } else if c[c.len() - 1] == ':' {
        Some(Align::Right)
    } else {
        Some(Align::Left)
    }
}

/// A delimiter cell with the colons at either end trimmed off.
pub open spec fn dashes_of(c: Seq<char>) -> Seq<char> {
    let lead = run_len(c, 0, ':') as int;
    if lead >= c.len() {
        Seq::empty()
    } else {
        c.subrange(lead, c.len() - trail_run(c, c.len() as int, ':'))
    }
}

pub open spec fn all_dashes(d: Seq<char>) -> bool {
    forall|k: int| 0 <= k < d.len() ==> #[trigger] d[k] == '-'
}

pub proof fn lemma_colon_runs(c: Seq<char>)
    ensures
        run_len(c, 0, ':') <= c.len(),
        run_len(c, 0, ':') < c.len() ==> run_len(c, 0, ':') + trail_run(c, c.len() as int, ':') < c.len(),
{
    crate::transcript::marks::lemma_run_len(c, 0, ':');
    lemma_trail_run(c, c.len() as int, ':');
    if run_len(c, 0, ':') < c.len() {
        let lead = run_len(c, 0, ':') as int;
        assert(c[lead] != ':');
    }
}

pub proof fn lemma_trail_run(s: Seq<char>, j: int, m: char)
    requires
        0 <= j <= s.len(),
    ensures
        trail_run(s, j, m) <= j,
        forall|k: int| j - trail_run(s, j, m) <= k < j ==> #[trigger] s[k] == m,
    decreases j,
{
    if 0 < j && s[j - 1] == m {
        lemma_trail_run(s, j - 1, m);
    }
}

pub fn align_of(c: &[char]) -> (r: Option<Align>)
    ensures
        r == align_spec(c@),
{
    let ghost s = c@;
    let n = c.len();
    let mut lead: usize = 0;
    while lead < n && c[lead] == ':'
        invariant
            lead <= n == s.len(),
            s == c@,
            run_len(s, 0, ':') == lead + run_len(s, lead as int, ':'),
        decreases n - lead,
    {
        lead = lead + 1;
    }
    let mut back = n;
    while back > lead && c[back - 1] == ':'
        invariant
            lead <= back <= n == s.len(),
            s == c@,
            trail_run(s, n as int, ':') == (n - back) + trail_run(s, back as int, ':'),
        decreases back,
    {
        back = back - 1;
    }
    proof {
        lemma_colon_runs(s);
        lemma_trail_run(s, n as int, ':');
        if lead < n {
            assert(s[lead as int] != ':');
            if back == lead {
                assert(trail_run(s, n as int, ':') >= n - lead);
                assert(s[lead as int] == ':');
            }
            assert(s[back - 1] != ':');
            assert(trail_run(s, back as int, ':') == 0);
            assert(back == s.len() - trail_run(s, s.len() as int, ':'));
        }
    }
    if n < 2 || lead >= n {
        return None;
    }
    let mut k = lead;
    while k < back
        invariant
            lead <= k <= back <= n == s.len(),
            s == c@,
            lead < n,
            lead == run_len(s, 0, ':'),
            back == s.len() - trail_run(s, s.len() as int, ':'),
            forall|j: int| lead <= j < k ==> #[trigger] s[j] == '-',
        decreases back - k,
    {
        if c[k] != '-' {
            proof {
                let dashes = s.subrange(lead as int, s.len() - trail_run(s, s.len() as int, ':'));
                assert(dashes[k - lead] != '-');
                assert(dashes == dashes_of(s));
                assert(!all_dashes(dashes));
            }
            return None;
        }
        k = k + 1;
    }
    proof {
        let dashes = s.subrange(lead as int, s.len() - trail_run(s, s.len() as int, ':'));
        assert(dashes.len() == back - lead);
        assert forall|j: int| 0 <= j < dashes.len() implies #[trigger] dashes[j] == '-' by {
            assert(dashes[j] == s[lead + j]);
        }
        assert(dashes == dashes_of(s));
    }
    if back == lead {
        return None;
    }
    if c[0] == ':' && c[n - 1] == ':' {
        Some(Align::Center)
    } else if c[n - 1] == ':' {
        Some(Align::Right)
    } else {
        Some(Align::Left)
    }
}

/// Whether every character of `s` belongs to a delimiter row.
pub open spec fn all_scaffolding(s: Seq<char>) -> bool {
    forall|k: int| 0 <= k < s.len() ==> #[trigger] s[k] == '|' || s[k] == '-' || s[k] == ':' || s[k] == ' '
}

/// Per-column alignment from a `|:--|:-:|--:|` row, or `None` when it is not one.
pub open spec fn alignments_spec(s: Seq<char>) -> Option<Seq<Align>> {
    match cells_spec(s) {
        None => None,
        Some(cs) => if cs.len() == 0 || !all_scaffolding(s) || exists|i: int| 0 <= i < cs.len() && (#[trigger] align_spec(cs[i].1)) is None {
            None
        } else {
            Some(cs.map_values(|c: (int, Seq<char>)| align_spec(c.1).unwrap()))
        },
    }
}

pub fn alignments(chars: &[char]) -> (r: Option<Vec<Align>>)
    ensures
        r matches Some(v) ==> alignments_spec(chars@) == Some(v@),
        r is None ==> alignments_spec(chars@) is None,
{
    let Some(cs) = cells(chars) else {
        return None;
    };
    let ghost views = cell_views(cs@);
    let mut k: usize = 0;
    while k < chars.len()
        invariant
            k <= chars@.len(),
            cells_spec(chars@) == Some(views),
            forall|j: int| 0 <= j < k ==> #[trigger] chars@[j] == '|' || chars@[j] == '-' || chars@[j] == ':' || chars@[j] == ' ',
        decreases chars.len() - k,
    {
        let c = chars[k];
        if !(c == '|' || c == '-' || c == ':' || c == ' ') {
            return None;
        }
        k = k + 1;
    }
    if cs.len() == 0 {
        return None;
    }
    let mut out: Vec<Align> = Vec::new();
    let mut i: usize = 0;
    while i < cs.len()
        invariant
            i <= cs@.len(),
            views == cell_views(cs@),
            cells_spec(chars@) == Some(views),
            all_scaffolding(chars@),
            views.len() > 0,
            out@ == views.take(i as int).map_values(|c: (int, Seq<char>)| align_spec(c.1).unwrap()),
            forall|j: int| 0 <= j < i ==> (#[trigger] align_spec(views[j].1)) is Some,
        decreases cs.len() - i,
    {
        let text = chars_of(cs[i].text.as_str());
        assert(views[i as int] == cs@[i as int]@);
        match align_of(&text) {
            None => {
                assert(text@ == views[i as int].1);
                assert(align_spec(views[i as int].1) is None);
                return None;
            },
            Some(a) => {
                assert(text@ == views[i as int].1);
                out.push(a);
                assert(out@ =~= views.take(i + 1).map_values(|c: (int, Seq<char>)| align_spec(c.1).unwrap()));
            },
        }
        i = i + 1;
    }
    assert(views.take(cs@.len() as int) =~= views);
    Some(out)
}


/// `a - b`, or none when `b` is the larger.
pub open spec fn less(a: int, b: int) -> int {
    if a >= b {
        a - b
    } else {
        0
    }
}

/// Spaces before and after a cell's text, from its column's alignment and the room it has.
pub open spec fn sides(align: Align, pad: int) -> (int, int) {
    match align {
        Align::Left => (0, pad),
        Align::Right => (pad, 0),
        Align::Center => (pad / 2, pad - pad / 2),
    }
}

pub open spec fn cell_text(cells: Seq<(int, Seq<char>)>, i: int) -> Seq<char> {
    if 0 <= i < cells.len() {
        cells[i].1
    } else {
        Seq::empty()
    }
}

pub open spec fn align_at(aligns: Seq<Align>, i: int) -> Align {
    if 0 <= i < aligns.len() {
        aligns[i]
    } else {
        Align::Left
    }
}

/// The first `n` columns of a grid row, `│ cell │ cell │`, each cell padded to its column and
/// aligned; and where each cell's text starts, which is what carries its emphasis across.
pub open spec fn row_spec(cells: Seq<(int, Seq<char>)>, widths: Seq<usize>, aligns: Seq<Align>, n: int) -> (Seq<char>, Seq<int>)
    decreases n,
{
    if n <= 0 {
        (seq!['│'], Seq::empty())
    } else {
        let prev = row_spec(cells, widths, aligns, n - 1);
        let text = cell_text(cells, n - 1);
        let pad = less(widths[n - 1] as int, cols_held(text));
        let lr = sides(align_at(aligns, n - 1), pad);
        let before = prev.0 + seq![' '] + repeat(' ', lr.0 as nat);
        (before + text + repeat(' ', lr.1 as nat) + seq![' ', '│'], prev.1.push(before.len() as int))
    }
}

pub proof fn lemma_row_grows(cells: Seq<(int, Seq<char>)>, widths: Seq<usize>, aligns: Seq<Align>, k: int, n: int)
    requires
        0 <= k <= n,
    ensures
        row_spec(cells, widths, aligns, k).0.len() <= row_spec(cells, widths, aligns, n).0.len(),
        row_spec(cells, widths, aligns, n).1.len() == n,
    decreases n,
{
    if n > 0 {
        if k < n {
            lemma_row_grows(cells, widths, aligns, k, n - 1);
        } else {
            lemma_row_grows(cells, widths, aligns, k - 1, n - 1);
        }
    }
}

/// A row drawn over more columns begins with the row drawn over fewer, and ends on a bar.
proof fn lemma_row_prefix(cells: Seq<(int, Seq<char>)>, widths: Seq<usize>, aligns: Seq<Align>, k: int, n: int)
    requires
        0 <= k <= n,
    ensures
        row_spec(cells, widths, aligns, k).0.len() <= row_spec(cells, widths, aligns, n).0.len(),
        row_spec(cells, widths, aligns, n).0.subrange(0, row_spec(cells, widths, aligns, k).0.len() as int)
            == row_spec(cells, widths, aligns, k).0,
        row_spec(cells, widths, aligns, n).1.take(k) == row_spec(cells, widths, aligns, k).1,
        row_spec(cells, widths, aligns, n).1.len() == if n > 0 { n } else { 0 },
        row_spec(cells, widths, aligns, n).0.len() > 0,
        row_spec(cells, widths, aligns, n).0.last() == '│',
    decreases n,
{
    if n > 0 {
        lemma_row_prefix(cells, widths, aligns, if k < n { k } else { n - 1 }, n - 1);
        let prev = row_spec(cells, widths, aligns, n - 1);
        let cur = row_spec(cells, widths, aligns, n);
        assert(cur.0.subrange(0, prev.0.len() as int) =~= prev.0);
        assert(cur.1.take(n - 1) =~= prev.1);
        if k < n {
            let pk = row_spec(cells, widths, aligns, k);
            assert(cur.0.subrange(0, pk.0.len() as int) =~= prev.0.subrange(0, pk.0.len() as int));
            assert(cur.1.take(k) =~= prev.1.take(k));
        } else {
            assert(cur.0.subrange(0, cur.0.len() as int) =~= cur.0);
            assert(cur.1.take(n) =~= cur.1);
        }
    } else {
        assert(row_spec(cells, widths, aligns, n).0.subrange(0, 1) =~= seq!['│']);
        assert(row_spec(cells, widths, aligns, n).1.take(k) =~= Seq::<int>::empty());
    }
}

/// Where a cell's text sits in its row. It is written whole where the row says it starts,
/// between its column's opening `│ ` and closing ` │`, with `left` spaces before it and `right`
/// after; the two together pad the text out to its column's width. A right-aligned column puts
/// all the padding before the text, a left-aligned one all of it after, and a centred one splits
/// it with the odd space after.
pub proof fn law_cells_sit_as_aligned(cells: Seq<(int, Seq<char>)>, widths: Seq<usize>, aligns: Seq<Align>, n: int, i: int)
    requires
        0 <= i < n,
        i < cells.len(),
    ensures
        ({
            let row = row_spec(cells, widths, aligns, n).0;
            let open = row_spec(cells, widths, aligns, i).0.len() - 1;
            let close = row_spec(cells, widths, aligns, i + 1).0.len() - 1;
            let at = row_spec(cells, widths, aligns, n).1[i];
            let text = cells[i].1;
            let left = at - open - 2;
            let right = close - 2 - (at + text.len()) + 1;
            &&& 0 <= open && left >= 0 && right >= 0 && close < row.len()
            &&& row[open] == '│' && row[open + 1] == ' ' && row[close - 1] == ' ' && row[close] == '│'
            &&& row.subrange(at, at + text.len()) == text
            &&& forall|k: int| open + 2 <= k < at ==> row[k] == ' '
            &&& forall|k: int| at + text.len() <= k < close - 1 ==> row[k] == ' '
            &&& left + right == less(widths[i] as int, cols_held(text))
            &&& i < aligns.len() && aligns[i] == Align::Right ==> right == 0
            &&& (i >= aligns.len() || aligns[i] == Align::Left) ==> left == 0
            &&& i < aligns.len() && aligns[i] == Align::Center ==> left <= right <= left + 1
        }),
{
    lemma_row_prefix(cells, widths, aligns, i + 1, n);
    lemma_row_prefix(cells, widths, aligns, i, i);
    let row = row_spec(cells, widths, aligns, n);
    let mine = row_spec(cells, widths, aligns, i + 1);
    let prev = row_spec(cells, widths, aligns, i);
    let text = cells[i].1;
    assert(cell_text(cells, i) == text);
    let pad = less(widths[i] as int, cols_held(text));
    let lr = sides(align_at(aligns, i), pad);
    let before = prev.0 + seq![' '] + repeat(' ', lr.0 as nat);
    let at = before.len() as int;
    assert(mine.0 == before + text + repeat(' ', lr.1 as nat) + seq![' ', '│']);
    assert(mine.1 == prev.1.push(at));
    assert(row.1[i] == row.1.take(i + 1)[i]);
    assert(row.1[i] == at);
    assert forall|j: int| 0 <= j < mine.0.len() implies row.0[j] == mine.0[j] by {
        assert(row.0.subrange(0, mine.0.len() as int)[j] == row.0[j]);
    }
    assert(row.0.subrange(at, at + text.len()) =~= text);
    assert(lr.0 + lr.1 == pad && lr.0 >= 0 && lr.1 >= 0);
    assert(prev.0[prev.0.len() - 1] == '│');
    assert(row.0[prev.0.len() - 1] == mine.0[prev.0.len() - 1]);
}

#[verifier::spinoff_prover]
#[verifier::rlimit(40)]
pub fn row_text(cells: &[Cell], widths: &[usize], aligns: &[Align]) -> (r: (String, Vec<usize>))
    requires
        row_spec(cell_views(cells@), widths@, aligns@, widths@.len() as int).0.len() <= usize::MAX,
    ensures
        r.0@ == row_spec(cell_views(cells@), widths@, aligns@, widths@.len() as int).0,
        r.1@.map_values(|a: usize| a as int) == row_spec(cell_views(cells@), widths@, aligns@, widths@.len() as int).1,
{
    let ghost cs = cell_views(cells@);
    let ghost total = widths@.len() as int;
    let mut out = String::new();
    out.push('│');
    let mut n: usize = 1;
    let mut starts: Vec<usize> = Vec::new();
    let mut i: usize = 0;
    assert(out@ =~= row_spec(cs, widths@, aligns@, 0).0);
    while i < widths.len()
        invariant
            i <= widths@.len(),
            cs == cell_views(cells@),
            total == widths@.len(),
            row_spec(cs, widths@, aligns@, total).0.len() <= usize::MAX,
            out@ == row_spec(cs, widths@, aligns@, i as int).0,
            n == out@.len(),
            starts@.map_values(|a: usize| a as int) == row_spec(cs, widths@, aligns@, i as int).1,
        decreases widths.len() - i,
    {
        proof {
            lemma_row_grows(cs, widths@, aligns@, i + 1, total);
        }
        let text: &str = if i < cells.len() {
            cells[i].text.as_str()
        } else {
            ""
        };
        proof {
            if i < cells.len() {
                assert(cs[i as int] == cells@[i as int]@);
            } else {
                reveal_strlit("");
            }
            assert(text@ == cell_text(cs, i as int));
        }
        let used = cols_of_str(text);
        let pad = widths[i].saturating_sub(used);
        let align = if i < aligns.len() {
            aligns[i]
        } else {
            Align::Left
        };
        let (left, right) = match align {
            Align::Left => (0, pad),
            Align::Right => (pad, 0),
            Align::Center => (pad / 2, pad - pad / 2),
        };
        let ghost before = out@ + seq![' '] + repeat(' ', left as nat);
        out.push(' ');
        push_repeat(&mut out, ' ', left);
        assert(out@ =~= before);
        n = n + 1 + left;
        let ghost prev_starts = starts@.map_values(|a: usize| a as int);
        starts.push(n);
        assert(starts@.map_values(|a: usize| a as int) =~= prev_starts.push(n as int));
        out.append(text);
        n = n + text.unicode_len();
        push_repeat(&mut out, ' ', right);
        n = n + right;
        out.push(' ');
        out.push('│');
        n = n + 2;
        assert(out@ =~= row_spec(cs, widths@, aligns@, i + 1).0);
        i = i + 1;
    }
    (out, starts)
}

/// A horizontal rule over the first `n` of `widths` columns, with the given corner and
/// junction characters: `start`, then each column's run closed by `join` — or by `end` after
/// the last of all `widths`.
pub open spec fn rule_spec(widths: Seq<usize>, start: char, join: char, end: char, n: int) -> Seq<char>
    decreases n,
{
    if n <= 0 {
        seq![start]
    } else {
        rule_spec(widths, start, join, end, n - 1) + repeat('─', (widths[n - 1] + 2) as nat) + seq![
            if n == widths.len() {
                end
            } else {
                join
            },
        ]
    }
}

/// A rule opens on its start corner; over each column runs `─` two longer than the column,
/// and the column closes on a junction — on the end corner after the last of all columns.
pub proof fn law_rule_shape(widths: Seq<usize>, start: char, join: char, end: char, n: int)
    requires
        0 <= n <= widths.len(),
    ensures
        rule_spec(widths, start, join, end, n).len() == span_of(widths, n) + 1,
        rule_spec(widths, start, join, end, n)[0] == start,
        forall|k: int|
            0 <= k < n ==> rule_spec(widths, start, join, end, n)[#[trigger] span_of(widths, k + 1)] == if k + 1
                == widths.len() {
                end
            } else {
                join
            },
        forall|k: int, x: int|
            #![trigger rule_spec(widths, start, join, end, n)[x], span_of(widths, k)]
            0 <= k < n && span_of(widths, k) < x < span_of(widths, k + 1) ==> rule_spec(widths, start, join, end, n)[x]
                == '─',
    decreases n,
{
    if n > 0 {
        law_rule_shape(widths, start, join, end, n - 1);
        let prev = rule_spec(widths, start, join, end, n - 1);
        let cur = rule_spec(widths, start, join, end, n);
        let dash = repeat('─', (widths[n - 1] + 2) as nat);
        let last = if n == widths.len() { end } else { join };
        assert(cur == prev + dash + seq![last]);
        assert forall|x: int| 0 <= x < prev.len() implies cur[x] == prev[x] by {}
        assert forall|k: int| 0 <= k < n implies cur[#[trigger] span_of(widths, k + 1)] == if k + 1 == widths.len() {
            end
        } else {
            join
        } by {
            if k < n - 1 {
                lemma_span_grows(widths, k + 1, n - 1);
                lemma_span_grows(widths, 0, k + 1);
                assert(cur[span_of(widths, k + 1)] == prev[span_of(widths, k + 1)]);
            } else {
                assert(span_of(widths, n) == prev.len() + dash.len());
                assert(cur[(prev.len() + dash.len()) as int] == last);
            }
        }
        assert forall|k: int, x: int|
            #![trigger cur[x], span_of(widths, k)]
            0 <= k < n && span_of(widths, k) < x < span_of(widths, k + 1) implies cur[x] == '─' by {
            if k < n - 1 {
                lemma_span_grows(widths, k + 1, n - 1);
                lemma_span_grows(widths, 0, k);
                assert(cur[x] == prev[x]);
                assert(prev[x] == '─');
            } else {
                assert(prev.len() <= x < prev.len() + dash.len());
                assert(cur[x] == dash[x - prev.len()]);
            }
        }
    }
}

pub fn rule(widths: &[usize], start: char, join: char, end: char) -> (out: String)
    ensures
        out@ == rule_spec(widths@, start, join, end, widths@.len() as int),
{
    let mut out = String::new();
    out.push(start);
    let mut i: usize = 0;
    assert(out@ =~= rule_spec(widths@, start, join, end, 0));
    while i < widths.len()
        invariant
            i <= widths@.len(),
            out@ == rule_spec(widths@, start, join, end, i as int),
        decreases widths.len() - i,
    {
        let ghost before = out@;
        push_repeat(&mut out, '─', widths[i]);
        out.push('─');
        out.push('─');
        out.push(if i + 1 == widths.len() {
            end
        } else {
            join
        });
        proof {
            assert(repeat('─', (widths@[i as int] + 2) as nat) =~= repeat('─', widths@[i as int] as nat) + seq!['─', '─']);
        }
        assert(out@ =~= rule_spec(widths@, start, join, end, i + 1));
        i = i + 1;
    }
    out
}

/// Columns the first `n` of `widths` take with their padding and one rule each.
pub open spec fn span_of(widths: Seq<usize>, n: int) -> int
    decreases n,
{
    if n <= 0 {
        0
    } else {
        span_of(widths, n - 1) + widths[n - 1] + 3
    }
}

pub proof fn lemma_span_grows(widths: Seq<usize>, k: int, n: int)
    requires
        0 <= k <= n,
    ensures
        span_of(widths, k) <= span_of(widths, n),
    decreases n,
{
    if k < n {
        lemma_span_grows(widths, k, n - 1);
    }
}

/// Character offsets of every `│` in a rendered row.
pub open spec fn bounds_spec(widths: Seq<usize>) -> Seq<int> {
    Seq::new(widths.len() + 1, |k: int| span_of(widths, k))
}

pub fn boundaries(widths: &[usize]) -> (out: Vec<usize>)
    requires
        span_of(widths@, widths@.len() as int) <= usize::MAX,
    ensures
        out@.map_values(|a: usize| a as int) == bounds_spec(widths@),
{
    let mut at: usize = 0;
    let mut out: Vec<usize> = vec![0];
    let mut i: usize = 0;
    while i < widths.len()
        invariant
            i <= widths@.len(),
            span_of(widths@, widths@.len() as int) <= usize::MAX,
            at == span_of(widths@, i as int),
            out@.map_values(|a: usize| a as int) == bounds_spec(widths@).take(i + 1),
        decreases widths.len() - i,
    {
        proof {
            lemma_span_grows(widths@, i + 1, widths@.len() as int);
        }
        at = at + widths[i] + 3;
        let ghost before = out@.map_values(|a: usize| a as int);
        out.push(at);
        assert(out@.map_values(|a: usize| a as int) =~= before.push(at as int));
        assert(bounds_spec(widths@).take(i + 2) =~= bounds_spec(widths@).take(i + 1).push(at as int));
        i = i + 1;
    }
    assert(bounds_spec(widths@).take(widths@.len() as int + 1) =~= bounds_spec(widths@));
    out
}


/// The parts of the first `k` spans inside `from..to`, each moved to start at `at`.
pub open spec fn pieces(spans: Seq<Span>, from: int, to: int, at: int, k: int) -> Seq<Span>
    decreases k,
{
    if k <= 0 {
        Seq::empty()
    } else {
        pieces(spans, from, to, at, k - 1) + match shifted(spans[k - 1], from, to, at) {
            Some(x) => seq![x],
            None => Seq::empty(),
        }
    }
}

/// A row's spans, moved from source offsets into the first `n` cells of the rendered row.
pub open spec fn moved_spec(spans: Seq<Span>, cells: Seq<(int, Seq<char>)>, starts: Seq<int>, n: int) -> Seq<Span>
    decreases n,
{
    if n <= 0 {
        Seq::empty()
    } else {
        moved_spec(spans, cells, starts, n - 1) + pieces(
            spans,
            cells[n - 1].0,
            cells[n - 1].0 + cells[n - 1].1.len(),
            starts[n - 1],
            spans.len() as int,
        )
    }
}

pub open spec fn min(a: int, b: int) -> int {
    if a <= b {
        a
    } else {
        b
    }
}

pub open spec fn usizes(v: Seq<usize>) -> Seq<int> {
    v.map_values(|a: usize| a as int)
}

pub fn moved(spans: &[Span], cells: &[Cell], starts: &[usize]) -> (out: Vec<Span>)
    requires
        forall|i: int|
            0 <= i < min(cells@.len() as int, starts@.len() as int) ==> #[trigger] cells@[i].at + cells@[i].text@.len() <= usize::MAX
                && starts@[i] + cells@[i].text@.len() <= usize::MAX,
    ensures
        out@ == moved_spec(spans@, cell_views(cells@), usizes(starts@), min(cells@.len() as int, starts@.len() as int)),
{
    let ghost cs = cell_views(cells@);
    let m = if cells.len() <= starts.len() {
        cells.len()
    } else {
        starts.len()
    };
    let mut out: Vec<Span> = Vec::new();
    let mut i: usize = 0;
    while i < m
        invariant
            i <= m == min(cells@.len() as int, starts@.len() as int),
            cs == cell_views(cells@),
            forall|i: int|
                0 <= i < m ==> #[trigger] cells@[i].at + cells@[i].text@.len() <= usize::MAX
                    && starts@[i] + cells@[i].text@.len() <= usize::MAX,
            out@ == moved_spec(spans@, cs, usizes(starts@), i as int),
        decreases m - i,
    {
        let from = cells[i].at;
        let len = cells[i].text.as_str().unicode_len();
        let end = from + len;
        let at = starts[i];
        assert(cs[i as int] == cells@[i as int]@);
        let ghost base = out@;
        let mut j: usize = 0;
        while j < spans.len()
            invariant
                j <= spans@.len(),
                end == from + len,
                at + len <= usize::MAX,
                out@ == base + pieces(spans@, from as int, end as int, at as int, j as int),
            decreases spans.len() - j,
        {
            let ghost before = out@;
            match spans[j].shift(from, end, at) {
                Some(x) => {
                    out.push(x);
                    assert(out@ =~= base + pieces(spans@, from as int, end as int, at as int, j + 1));
                },
                None => {
                    assert(out@ =~= base + pieces(spans@, from as int, end as int, at as int, j + 1));
                },
            }
            j = j + 1;
        }
        assert(usizes(starts@)[i as int] == at);
        assert(out@ =~= moved_spec(spans@, cs, usizes(starts@), i + 1));
        i = i + 1;
    }
    out
}


/// One line as the paint layer receives it: the text the transcript kept, who wrote it, what
/// block it is, and the emphasis read inside it.
#[derive(Debug, Clone, Copy)]
pub struct Markup<'a> {
    pub text: &'a str,
    pub tone: Tone,
    pub block: Block,
    pub spans: &'a [Span],
}

impl<'a> View for Markup<'a> {
    type V = (Seq<char>, Seq<Span>);

    open spec fn view(&self) -> (Seq<char>, Seq<Span>) {
        (self.text@, self.spans@)
    }
}

/// The rows below the delimiter, from `i` on, for as long as each line is a table row.
pub open spec fn body_from(ls: Seq<(Seq<char>, Seq<Span>)>, i: int) -> Seq<Seq<(int, Seq<char>)>>
    decreases ls.len() - i,
{
    if i < 0 || i >= ls.len() {
        Seq::empty()
    } else {
        match cells_spec(ls[i].0) {
            None => Seq::empty(),
            Some(c) => seq![c] + body_from(ls, i + 1),
        }
    }
}

/// Each column widened to hold the row's cell in it.
pub open spec fn widen(acc: Seq<usize>, row: Seq<(int, Seq<char>)>) -> Seq<usize> {
    Seq::new(
        acc.len(),
        |i: int|
            if i < row.len() && cols_held(row[i].1) > acc[i] {
                cols_held(row[i].1) as usize
            } else {
                acc[i]
            },
    )
}

/// Column widths after the first `n` rows: each the widest cell in it.
pub open spec fn widths_spec(rows: Seq<Seq<(int, Seq<char>)>>, columns: nat, n: int) -> Seq<usize>
    decreases n,
{
    if n <= 0 {
        Seq::new(columns, |i: int| 0usize)
    } else {
        widen(widths_spec(rows, columns, n - 1), rows[n - 1])
    }
}

/// Widening keeps every column at least as wide as before, and at least as wide as the row's
/// cell in it.
proof fn lemma_widths_cover(rows: Seq<Seq<(int, Seq<char>)>>, columns: nat, n: int)
    requires
        0 <= n <= rows.len(),
    ensures
        widths_spec(rows, columns, n).len() == columns,
        forall|r: int, i: int|
            #![trigger rows[r][i], widths_spec(rows, columns, n)[i]]
            0 <= r < n && 0 <= i < columns && i < rows[r].len() ==> cols_held(rows[r][i].1)
                <= widths_spec(rows, columns, n)[i],
    decreases n,
{
    if n > 0 {
        lemma_widths_cover(rows, columns, n - 1);
        let before = widths_spec(rows, columns, n - 1);
        let after = widths_spec(rows, columns, n);
        assert(after == widen(before, rows[n - 1]));
        assert forall|r: int, i: int|
            #![trigger rows[r][i], after[i]]
            0 <= r < n && 0 <= i < columns && i < rows[r].len() implies cols_held(rows[r][i].1)
                <= after[i] by {
            assert(after[i] >= before[i]);
            if r < n - 1 {
                assert(cols_held(rows[r][i].1) <= before[i]);
            }
        }
    }
}

/// No cell is wider than its column: each column of a grid is as wide as the widest cell in
/// it, so every cell pads out to exactly its column and the rows line up.
pub proof fn law_cells_fit_their_columns(rows: Seq<Seq<(int, Seq<char>)>>, columns: nat)
    ensures
        widths_spec(rows, columns, rows.len() as int).len() == columns,
        forall|r: int, i: int|
            #![trigger rows[r][i], widths_spec(rows, columns, rows.len() as int)[i]]
            0 <= r < rows.len() && 0 <= i < columns && i < rows[r].len() ==> cols_held(rows[r][i].1) + less(
                widths_spec(rows, columns, rows.len() as int)[i] as int,
                cols_held(rows[r][i].1),
            ) == widths_spec(rows, columns, rows.len() as int)[i],
{
    lemma_widths_cover(rows, columns, rows.len() as int);
}

/// The space and every box-drawing character a grid is drawn with take one column each.
pub open spec fn grid_glyphs_narrow() -> bool {
    &&& cols(' ') == 1
    &&& cols('│') == 1
    &&& cols('─') == 1
    &&& cols('┌') == 1 && cols('┬') == 1 && cols('┐') == 1
    &&& cols('├') == 1 && cols('┼') == 1 && cols('┤') == 1
    &&& cols('└') == 1 && cols('┴') == 1 && cols('┘') == 1
}

/// Measures the characters a grid is drawn with.
fn measure_grid_glyphs()
    ensures
        grid_glyphs_narrow(),
{
    let glyphs = [' ', '│', '─', '┌', '┬', '┐', '├', '┼', '┤', '└', '┴', '┘'];
    let mut i: usize = 0;
    while i < 12
        invariant
            i <= 12,
            glyphs@ == seq![' ', '│', '─', '┌', '┬', '┐', '├', '┼', '┤', '└', '┴', '┘'],
            forall|j: int| 0 <= j < i ==> cols(#[trigger] glyphs@[j]) == 1,
        decreases 12 - i,
    {
        let c = glyphs[i];
        let _ = width_of_char(c);
        assert(c == ' ' || ('\u{2500}' <= c && c <= '\u{257f}'));
        i = i + 1;
    }
    assert(cols(glyphs@[0]) == 1 && cols(glyphs@[1]) == 1 && cols(glyphs@[2]) == 1 && cols(glyphs@[3]) == 1);
    assert(cols(glyphs@[4]) == 1 && cols(glyphs@[5]) == 1 && cols(glyphs@[6]) == 1 && cols(glyphs@[7]) == 1);
    assert(cols(glyphs@[8]) == 1 && cols(glyphs@[9]) == 1 && cols(glyphs@[10]) == 1 && cols(glyphs@[11]) == 1);
}

proof fn lemma_cols_one(c: char)
    ensures
        cols_sum(seq![c]) == cols(c),
{
    assert(seq![c].drop_last() =~= Seq::<char>::empty());
    assert(cols_sum(Seq::<char>::empty()) == 0);
    assert(seq![c].last() == c);
}

proof fn lemma_cols_repeat(c: char, m: nat)
    requires
        cols(c) == 1,
    ensures
        cols_sum(repeat(c, m)) == m,
    decreases m,
{
    if m > 0 {
        lemma_cols_repeat(c, (m - 1) as nat);
        assert(repeat(c, m).drop_last() =~= repeat(c, (m - 1) as nat));
    }
}

/// A rule over `n` columns takes the columns its grid spans, and one more for its last corner.
proof fn lemma_rule_cols(widths: Seq<usize>, start: char, join: char, end: char, n: int)
    requires
        0 <= n <= widths.len(),
        cols(start) == 1,
        cols(join) == 1,
        cols(end) == 1,
        cols('─') == 1,
    ensures
        cols_sum(rule_spec(widths, start, join, end, n)) == span_of(widths, n) + 1,
    decreases n,
{
    if n <= 0 {
        lemma_cols_one(start);
    } else {
        lemma_rule_cols(widths, start, join, end, n - 1);
        let prev = rule_spec(widths, start, join, end, n - 1);
        let dash = repeat('─', (widths[n - 1] + 2) as nat);
        let last = if n == widths.len() { end } else { join };
        lemma_cols_repeat('─', (widths[n - 1] + 2) as nat);
        lemma_cols_one(last);
        lemma_cols_sum_concat(prev, dash);
        lemma_cols_sum_concat(prev + dash, seq![last]);
    }
}

/// A cell row whose cells each fit their column takes the same columns as its rules.
proof fn lemma_row_cols(cells: Seq<(int, Seq<char>)>, widths: Seq<usize>, aligns: Seq<Align>, n: int)
    requires
        0 <= n <= widths.len(),
        cols(' ') == 1,
        cols('│') == 1,
        forall|i: int| 0 <= i < n ==> cols_sum(#[trigger] cell_text(cells, i)) <= widths[i],
    ensures
        cols_sum(row_spec(cells, widths, aligns, n).0) == span_of(widths, n) + 1,
    decreases n,
{
    if n <= 0 {
        lemma_cols_one('│');
    } else {
        lemma_row_cols(cells, widths, aligns, n - 1);
        let prev = row_spec(cells, widths, aligns, n - 1).0;
        let text = cell_text(cells, n - 1);
        assert(cols_sum(text) <= widths[n - 1]);
        lemma_cols_sum_concat(Seq::<char>::empty(), text);
        assert(Seq::<char>::empty() + text =~= text);
        assert(cols_held(text) == cols_sum(text));
        let pad = less(widths[n - 1] as int, cols_held(text));
        let lr = sides(align_at(aligns, n - 1), pad);
        assert(lr.0 + lr.1 == pad && lr.0 >= 0 && lr.1 >= 0);
        let l = repeat(' ', lr.0 as nat);
        let r = repeat(' ', lr.1 as nat);
        lemma_cols_repeat(' ', lr.0 as nat);
        lemma_cols_repeat(' ', lr.1 as nat);
        lemma_cols_one(' ');
        lemma_cols_one('│');
        lemma_cols_sum_concat(seq![' '], seq!['│']);
        assert(row_spec(cells, widths, aligns, n).0 == prev + seq![' '] + l + text + r + seq![' ', '│']);
        assert(seq![' '] + seq!['│'] =~= seq![' ', '│']);
        lemma_cols_sum_concat(prev, seq![' ']);
        lemma_cols_sum_concat(prev + seq![' '], l);
        lemma_cols_sum_concat(prev + seq![' '] + l, text);
        lemma_cols_sum_concat(prev + seq![' '] + l + text, r);
        lemma_cols_sum_concat(prev + seq![' '] + l + text + r, seq![' ', '│']);
        assert(cols_sum(seq![' ', '│']) == 2);
        assert(pad == widths[n - 1] - cols_sum(text));
    }
}

proof fn lemma_span_covers(widths: Seq<usize>, i: int, n: int)
    requires
        0 <= i < n <= widths.len(),
    ensures
        span_of(widths, n) >= widths[i] + 3,
    decreases n,
{
    if i + 1 < n {
        lemma_span_covers(widths, i, n - 1);
    } else {
        lemma_span_grows(widths, 0, i);
    }
}

/// Every line of a rendered table, and both its borders, take the same columns — the ones its
/// grid spans, one more for the last rule — and that is no wider than the table was allowed.
proof fn lemma_table_cols(ls: Seq<(Seq<char>, Seq<Span>)>, width: int)
    requires
        table_spec(ls, width) is Some,
        width <= usize::MAX,
        grid_glyphs_narrow(),
    ensures
        ({
            let t = table_spec(ls, width).unwrap();
            let d = t.4.last() + 1;
            &&& d <= width
            &&& cols_sum(t.2) == d
            &&& cols_sum(t.3) == d
            &&& forall|k: int| 0 <= k < t.0.len() ==> cols_sum(#[trigger] t.0[k]) == d
        }),
{
    let header = cells_spec(ls[0].0).unwrap();
    let aligns = alignments_spec(ls[1].0).unwrap();
    let all = seq![header] + body_from(ls, 2);
    let columns = columns_of(header, aligns);
    let widths = widths_spec(all, columns, all.len() as int);
    let n = widths.len() as int;
    let t = table_spec(ls, width).unwrap();
    lemma_widths_cover(all, columns, all.len() as int);
    assert(t.4 == bounds_spec(widths));
    assert(t.4.last() == span_of(widths, n));
    lemma_rule_cols(widths, '┌', '┬', '┐', n);
    lemma_rule_cols(widths, '└', '┴', '┘', n);
    lemma_rule_cols(widths, '├', '┼', '┤', n);
    assert forall|k: int| 0 <= k < t.0.len() implies cols_sum(#[trigger] t.0[k]) == t.4.last() + 1 by {
        assert(t.0[k] == grid_row(all, widths, aligns, k));
        if k != 1 {
            let r = if k == 0 { 0 } else { k - 1 };
            assert forall|i: int| 0 <= i < n implies cols_sum(#[trigger] cell_text(all[r], i)) <= widths[i] by {
                if i < all[r].len() {
                    assert(cell_text(all[r], i) == all[r][i].1);
                    assert(cols_held(all[r][i].1) <= widths[i]);
                    lemma_span_covers(widths, i, n);
                    if cols_sum(all[r][i].1) > usize::MAX {
                        assert(widths[i] == usize::MAX);
                    }
                } else {
                    assert(cell_text(all[r], i) =~= Seq::<char>::empty());
                }
            }
            lemma_row_cols(all[r], widths, aligns, n);
        }
    }
}

/// A rendered table: each covered line's grid text, its emphasis moved into the grid, the
/// border hung above the first line and below the last, and where the rules fall.
pub type TableView = (Seq<Seq<char>>, Seq<Seq<Span>>, Seq<char>, Seq<char>, Seq<int>);

/// Line `k` of a rendered table: the header row, the delimiter row drawn as a rule, then the
/// body rows.
pub open spec fn grid_row(all: Seq<Seq<(int, Seq<char>)>>, widths: Seq<usize>, aligns: Seq<Align>, k: int) -> Seq<char> {
    if k == 1 {
        rule_spec(widths, '├', '┼', '┤', widths.len() as int)
    } else {
        row_spec(all[if k == 0 { 0 } else { k - 1 }], widths, aligns, widths.len() as int).0
    }
}

/// Line `k`'s emphasis, moved into its grid row. The delimiter row carries none.
pub open spec fn grid_spans(ls: Seq<(Seq<char>, Seq<Span>)>, all: Seq<Seq<(int, Seq<char>)>>, widths: Seq<usize>, aligns: Seq<Align>, k: int) -> Seq<Span> {
    if k == 1 {
        Seq::empty()
    } else {
        let r = if k == 0 { 0 } else { k - 1 };
        moved_spec(
            ls[k].1,
            all[r],
            row_spec(all[r], widths, aligns, widths.len() as int).1,
            min(all[r].len() as int, widths.len() as int),
        )
    }
}

/// The table starting at `ls[0]`, or `None` when it is not one — a header row, then a
/// delimiter row — or when the grid would not fit `width`, or a row of it would not fit in
/// memory. A table too wide to draw stays raw markdown, which wraps.
pub open spec fn table_spec(ls: Seq<(Seq<char>, Seq<Span>)>, width: int) -> Option<TableView> {
    if ls.len() < 2 {
        None
    } else {
        match (cells_spec(ls[0].0), alignments_spec(ls[1].0)) {
            (Some(header), Some(aligns)) => {
                let all = seq![header] + body_from(ls, 2);
                let widths = widths_spec(all, columns_of(header, aligns), all.len() as int);
                let n = widths.len() as int;
                if span_of(widths, n) + 1 > width {
                    None
                } else if !rows_fit(all, widths, aligns) {
                    None
                } else {
                    Some((
                        Seq::new(all.len() + 1, |k: int| grid_row(all, widths, aligns, k)),
                        Seq::new(all.len() + 1, |k: int| grid_spans(ls, all, widths, aligns, k)),
                        rule_spec(widths, '┌', '┬', '┐', n),
                        rule_spec(widths, '└', '┴', '┘', n),
                        bounds_spec(widths),
                    ))
                }
            },
            _ => None,
        }
    }
}

pub open spec fn columns_of(header: Seq<(int, Seq<char>)>, aligns: Seq<Align>) -> nat {
    if header.len() >= aligns.len() {
        header.len()
    } else {
        aligns.len()
    }
}

/// Every row's grid text fits in memory.
pub open spec fn rows_fit(all: Seq<Seq<(int, Seq<char>)>>, widths: Seq<usize>, aligns: Seq<Align>) -> bool {
    forall|k: int| 0 <= k < all.len() ==> (#[trigger] row_spec(all[k], widths, aligns, widths.len() as int)).0.len() <= usize::MAX
}

pub proof fn lemma_body_len(ls: Seq<(Seq<char>, Seq<Span>)>, i: int)
    requires
        0 <= i <= ls.len(),
    ensures
        body_from(ls, i).len() <= ls.len() - i,
    decreases ls.len() - i,
{
    if i < ls.len() {
        lemma_body_len(ls, i + 1);
    }
}

/// A table found in the source: its lines, and the cells parsed out of them.
#[derive(Debug)]
pub struct Table {
    /// Rendered text for each source line the table covers, in order.
    pub rows: Vec<String>,
    /// Each row's emphasis, moved into rendered coordinates.
    pub spans: Vec<Vec<Span>>,
    /// The border above the first row and below the last — chrome with no source line.
    pub top: String,
    pub bottom: String,
    /// Column boundaries in the rendered text, for painting the rules dim.
    pub rules: Vec<usize>,
}

impl View for Table {
    type V = TableView;

    open spec fn view(&self) -> TableView {
        (
            self.rows@.map_values(|r: String| r@),
            self.spans@.map_values(|v: Vec<Span>| v@),
            self.top@,
            self.bottom@,
            usizes(self.rules@),
        )
    }
}

pub proof fn lemma_split_bounds(s: Seq<char>, from: int, k: int, end: int)
    requires
        0 <= from <= k <= end <= s.len(),
    ensures
        forall|j: int|
            0 <= j < split_from(s, from, k, end).len() ==> 0 <= (#[trigger] split_from(s, from, k, end)[j]).0
                && split_from(s, from, k, end)[j].0 + split_from(s, from, k, end)[j].1.len() <= end,
    decreases end - k,
{
    let all = split_from(s, from, k, end);
    if k >= end {
        if from < end {
            lemma_cell_bounds(s, from, end);
            assert(all == seq![cell_spec(s, from, end)]);
        } else {
            assert(all.len() == 0);
        }
    } else if s[k] == '|' {
        lemma_cell_bounds(s, from, k);
        lemma_split_bounds(s, k + 1, k + 1, end);
        let rest = split_from(s, k + 1, k + 1, end);
        assert(all == seq![cell_spec(s, from, k)] + rest);
        assert forall|j: int| 0 <= j < all.len() implies 0 <= (#[trigger] all[j]).0 && all[j].0 + all[j].1.len() <= end by {
            if j > 0 {
                assert(all[j] == rest[j - 1]);
            }
        }
    } else {
        lemma_split_bounds(s, from, k + 1, end);
        assert(all == split_from(s, from, k + 1, end));
    }
}

pub proof fn lemma_cell_bounds(s: Seq<char>, from: int, to: int)
    requires
        0 <= from <= to <= s.len(),
    ensures
        from <= cell_spec(s, from, to).0,
        cell_spec(s, from, to).0 + cell_spec(s, from, to).1.len() <= to,
{
    lemma_sp(s, from, to);
    let lead = sp_lead(s, from, to);
    lemma_sp(s, from + lead, to);
}

/// The cells of a row start inside it and end inside it.
pub proof fn lemma_cells_bounds(s: Seq<char>)
    ensures
        cells_spec(s) matches Some(cs) ==> forall|j: int|
            0 <= j < cs.len() ==> 0 <= (#[trigger] cs[j]).0 && cs[j].0 + cs[j].1.len() <= s.len(),
{
    let start = lead_ws(s, 0) as int;
    crate::text::lemma_lead_ws_bound(s, 0);
    crate::text::lemma_trail_ws_bound(s, s.len() as int);
    if !(start >= s.len() || s[start] != '|') {
        let end = s.len() - trail_ws(s, s.len() as int);
        if start + 1 > end {
            assert(crate::text::is_ws(s[start]));
        }
        lemma_split_bounds(s, start + 1, start + 1, end);
    }
}

/// Each cell's text fits in the row after where it starts.
pub proof fn lemma_starts_inside(cells: Seq<(int, Seq<char>)>, widths: Seq<usize>, aligns: Seq<Align>, n: int)
    requires
        0 <= n,
    ensures
        row_spec(cells, widths, aligns, n).1.len() == n,
        forall|i: int|
            0 <= i < n ==> (#[trigger] row_spec(cells, widths, aligns, n).1[i]) + cell_text(cells, i).len()
                <= row_spec(cells, widths, aligns, n).0.len(),
    decreases n,
{
    if n > 0 {
        lemma_starts_inside(cells, widths, aligns, n - 1);
        let prev = row_spec(cells, widths, aligns, n - 1);
        let cur = row_spec(cells, widths, aligns, n);
        assert forall|i: int| 0 <= i < n implies (#[trigger] cur.1[i]) + cell_text(cells, i).len() <= cur.0.len() by {
            if i < n - 1 {
                assert(cur.1[i] == prev.1[i]);
            }
        }
    }
}

/// Widen `widths` by one row.
fn widen_by(widths: &mut Vec<usize>, row: &[Cell])
    ensures
        final(widths)@ == widen(old(widths)@, cell_views(row@)),
{
    let ghost cs = cell_views(row@);
    let ghost start = widths@;
    let mut i: usize = 0;
    while i < widths.len()
        invariant
            i <= widths@.len() == start.len(),
            cs == cell_views(row@),
            forall|j: int| 0 <= j < i ==> widths@[j] == #[trigger] widen(start, cs)[j],
            forall|j: int| i <= j < widths@.len() ==> widths@[j] == #[trigger] start[j],
        decreases widths.len() - i,
    {
        assert(widths@[i as int] == start[i as int]);
        let ghost target = widen(start, cs)[i as int];
        if i < row.len() {
            assert(cs[i as int] == row@[i as int]@);
            let w = cols_of_str(row[i].text.as_str());
            if w > widths[i] {
                widths.set(i, w);
            }
        }
        assert(widths@[i as int] == target);
        i = i + 1;
    }
    assert(widths@ =~= widen(start, cs));
}

/// How long a row's grid text comes out, or `None` when that would not fit in memory.
fn row_len(cells: &[Cell], widths: &[usize], aligns: &[Align]) -> (r: Option<usize>)
    ensures
        match r {
            Some(n) => n == row_spec(cell_views(cells@), widths@, aligns@, widths@.len() as int).0.len(),
            None => row_spec(cell_views(cells@), widths@, aligns@, widths@.len() as int).0.len() > usize::MAX,
        },
{
    let ghost cs = cell_views(cells@);
    let mut n: usize = 1;
    let mut i: usize = 0;
    while i < widths.len()
        invariant
            i <= widths@.len(),
            cs == cell_views(cells@),
            n == row_spec(cs, widths@, aligns@, i as int).0.len(),
        decreases widths.len() - i,
    {
        proof {
            lemma_row_grows(cs, widths@, aligns@, i as int, widths@.len() as int);
        }
        let len: usize = if i < cells.len() {
            assert(cs[i as int] == cells@[i as int]@);
            cells[i].text.as_str().unicode_len()
        } else {
            0
        };
        proof {
            reveal_strlit("");
        }
        let used: usize = if i < cells.len() {
            cols_of_str(cells[i].text.as_str())
        } else {
            cols_of_str("")
        };
        let pad = widths[i].saturating_sub(used);
        proof {
            let text = cell_text(cs, i as int);
            if i < cells.len() {
                assert(cs[i as int] == cells@[i as int]@);
            } else {
                assert(""@ =~= Seq::<char>::empty());
            }
            assert(text.len() == len);
            assert(cols_held(text) == used);
            let lr = sides(align_at(aligns@, i as int), pad as int);
            assert(lr.0 + lr.1 == pad);
            assert(row_spec(cs, widths@, aligns@, i + 1).0.len() == n + 3 + pad + len);
        }
        let step = match n.checked_add(3) {
            Some(a) => a.checked_add(pad),
            None => None,
        };
        let next = match step {
            Some(a) => a.checked_add(len),
            None => None,
        };
        match next {
            Some(m) => {
                n = m;
            },
            None => {
                proof {
                    lemma_row_grows(cs, widths@, aligns@, i + 1, widths@.len() as int);
                }
                return None;
            },
        }
        i = i + 1;
    }
    Some(n)
}


/// The grid for a table whose rows have been read and measured.
#[verifier::rlimit(40)]
fn draw(lines: &[Markup], header: &Vec<Cell>, body: &Vec<Vec<Cell>>, widths: &Vec<usize>, aligns: &Vec<Align>) -> (t: Table)
    requires
        lines@.len() >= 2,
        body@.len() + 2 <= lines@.len(),
        body@.map_values(|r: Vec<Cell>| cell_views(r@)) == body_from(lines@.map_values(|m: Markup| m@), 2),
        rows_fit(seq![cell_views(header@)] + body_from(lines@.map_values(|m: Markup| m@), 2), widths@, aligns@),
        span_of(widths@, widths@.len() as int) <= usize::MAX,
        forall|c: int| 0 <= c < header@.len() ==> (#[trigger] header@[c]).at + header@[c].text@.len() <= usize::MAX,
        forall|j: int, c: int| 0 <= j < body@.len() && 0 <= c < body@[j]@.len() ==> (#[trigger] body@[j]@[c]).at
            + body@[j]@[c].text@.len() <= usize::MAX,
    ensures
        ({
            let ls = lines@.map_values(|m: Markup| m@);
            let all = seq![cell_views(header@)] + body_from(ls, 2);
            t@ == (
                Seq::new(all.len() + 1, |k: int| grid_row(all, widths@, aligns@, k)),
                Seq::new(all.len() + 1, |k: int| grid_spans(ls, all, widths@, aligns@, k)),
                rule_spec(widths@, '┌', '┬', '┐', widths@.len() as int),
                rule_spec(widths@, '└', '┴', '┘', widths@.len() as int),
                bounds_spec(widths@),
            )
        }),
{
    let ghost ls = lines@.map_values(|m: Markup| m@);
    let ghost hv = cell_views(header@);
    let ghost all = seq![hv] + body_from(ls, 2);
    let ghost n = widths@.len() as int;
    assert(all.len() == body@.len() + 1);
    assert(all[0] == hv);
    assert(row_spec(all[0], widths@, aligns@, n).0.len() <= usize::MAX);
    proof {
        lemma_starts_inside(hv, widths@, aligns@, n);
    }
    assert(ls[0] == lines@[0]@);
    let (text, starts) = row_text(header, widths, aligns);
    proof {
        assert forall|i: int| 0 <= i < min(header@.len() as int, starts@.len() as int) implies #[trigger] header@[i].at + header@[i].text@.len() <= usize::MAX
            && starts@[i] + header@[i].text@.len() <= usize::MAX by {
            assert(hv[i] == header@[i]@);
            assert(usizes(starts@)[i] == starts@[i]);
            assert(cell_text(hv, i) == header@[i].text@);
        }
    }
    let first = moved(lines[0].spans, header, &starts);
    let mut rows: Vec<String> = Vec::new();
    let mut spans: Vec<Vec<Span>> = Vec::new();
    rows.push(text);
    spans.push(first);
    rows.push(rule(widths, '├', '┼', '┤'));
    spans.push(Vec::new());
    let ghost grid = Seq::new(all.len() + 1, |k: int| grid_row(all, widths@, aligns@, k));
    let ghost moved_all = Seq::new(all.len() + 1, |k: int| grid_spans(ls, all, widths@, aligns@, k));
    assert(rows@.map_values(|r: String| r@) =~= grid.take(2));
    assert(spans@.map_values(|v: Vec<Span>| v@) =~= moved_all.take(2));
    let _lines = lines.len();
    let mut b: usize = 0;
    while b < body.len()
        invariant
            b <= body@.len(),
            body@.len() + 2 <= lines@.len() <= usize::MAX,
            all.len() == body@.len() + 1,
            ls == lines@.map_values(|m: Markup| m@),
            all == seq![hv] + body_from(ls, 2),
            body@.map_values(|r: Vec<Cell>| cell_views(r@)) == body_from(ls, 2),
            n == widths@.len(),
            forall|j: int| 0 <= j < all.len() ==> (#[trigger] row_spec(all[j], widths@, aligns@, n)).0.len() <= usize::MAX,
            forall|j: int, c: int| 0 <= j < body@.len() && 0 <= c < body@[j]@.len() ==> (#[trigger] body@[j]@[c]).at
                + body@[j]@[c].text@.len() <= usize::MAX,
            grid == Seq::new(all.len() + 1, |k: int| grid_row(all, widths@, aligns@, k)),
            moved_all == Seq::new(all.len() + 1, |k: int| grid_spans(ls, all, widths@, aligns@, k)),
            rows@.map_values(|r: String| r@) == grid.take(b + 2),
            spans@.map_values(|v: Vec<Span>| v@) == moved_all.take(b + 2),
        decreases body.len() - b,
    {
        let ghost row = cell_views(body@[b as int]@);
        assert(all[b + 1] == row);
        assert(row_spec(all[b + 1], widths@, aligns@, n).0.len() <= usize::MAX);
        proof {
            lemma_starts_inside(row, widths@, aligns@, n);
        }
        let (text, starts) = row_text(&body[b], widths, aligns);
        proof {
            assert forall|i: int| 0 <= i < min(body@[b as int]@.len() as int, starts@.len() as int) implies #[trigger] body@[b as int]@[i].at + body@[b as int]@[i].text@.len() <= usize::MAX
                && starts@[i] + body@[b as int]@[i].text@.len() <= usize::MAX by {
                assert(row[i] == body@[b as int]@[i]@);
                assert(usizes(starts@)[i] == starts@[i]);
                assert(cell_text(row, i) == body@[b as int]@[i].text@);
                assert(body@[b as int]@[i].at + body@[b as int]@[i].text@.len() <= usize::MAX);
            }
        }
        assert(ls[b + 2] == lines@[b + 2]@);
        let more = moved(lines[b + 2].spans, &body[b], &starts);
        let ghost before_rows = rows@.map_values(|r: String| r@);
        let ghost before_spans = spans@.map_values(|v: Vec<Span>| v@);
        rows.push(text);
        spans.push(more);
        assert(rows@.map_values(|r: String| r@) =~= before_rows.push(grid[b + 2]));
        assert(spans@.map_values(|v: Vec<Span>| v@) =~= before_spans.push(moved_all[b + 2]));
        assert(grid.take(b + 3) =~= grid.take(b + 2).push(grid[b + 2]));
        assert(moved_all.take(b + 3) =~= moved_all.take(b + 2).push(moved_all[b + 2]));
        b = b + 1;
    }
    assert(grid.take(body@.len() as int + 2) =~= grid);
    assert(moved_all.take(body@.len() as int + 2) =~= moved_all);
    let top = rule(widths, '┌', '┬', '┐');
    let bottom = rule(widths, '└', '┴', '┘');
    let rules = boundaries(widths);
    Table { rows, spans, top, bottom, rules }
}

impl Table {
    /// The rendered table starting at `lines[0]`, or `None` when this is not a table or the
    /// grid would not fit `width` — a table too wide to draw stays raw markdown, which wraps.
    #[verifier::loop_isolation(false)]
    pub fn parse(lines: &[Markup], width: usize) -> (r: Option<Table>)
        ensures
            match table_spec(lines@.map_values(|m: Markup| m@), width as int) {
                None => r is None,
                Some(t) => r is Some && r.unwrap()@ == t,
            },
            r matches Some(t) ==> {
                let d = t@.4.last() + 1;
                &&& d <= width
                &&& cols_sum(t@.2) == d
                &&& cols_sum(t@.3) == d
                &&& forall|k: int| 0 <= k < t@.0.len() ==> cols_sum(#[trigger] t@.0[k]) == d
            },
    {
        let ghost ls = lines@.map_values(|m: Markup| m@);
        if lines.len() < 2 {
            return None;
        }
        assert(ls[0] == lines@[0]@ && ls[1] == lines@[1]@);
        let head_chars = chars_of(lines[0].text);
        let Some(header) = cells(&head_chars) else {
            return None;
        };
        let Some(aligns) = alignments(&chars_of(lines[1].text)) else {
            return None;
        };
        let columns = if header.len() >= aligns.len() {
            header.len()
        } else {
            aligns.len()
        };
        let mut body: Vec<Vec<Cell>> = Vec::new();
        let mut k: usize = 2;
        let mut open = true;
        while open && k < lines.len()
            invariant
                2 <= k <= lines@.len(),
                ls == lines@.map_values(|m: Markup| m@),
                body@.map_values(|r: Vec<Cell>| cell_views(r@)) + body_from(ls, k as int) == body_from(ls, 2),
                !open ==> body_from(ls, k as int) =~= Seq::<Seq<(int, Seq<char>)>>::empty(),
                forall|j: int, c: int| 0 <= j < body@.len() && 0 <= c < body@[j]@.len() ==> (#[trigger] body@[j]@[c]).at
                    + body@[j]@[c].text@.len() <= usize::MAX,
            decreases lines.len() - k + (if open { 1int } else { 0int }),
        {
            let row_chars = chars_of(lines[k].text);
            assert(ls[k as int] == lines@[k as int]@);
            match cells(&row_chars) {
                None => {
                    assert(body_from(ls, k as int) =~= Seq::empty());
                    open = false;
                },
                Some(row) => {
                    let _len = row_chars.len();
                    proof {
                        lemma_cells_bounds(row_chars@);
                        assert forall|c: int| 0 <= c < row@.len() implies (#[trigger] row@[c]).at + row@[c].text@.len() <= usize::MAX by {
                            assert(cell_views(row@)[c] == row@[c]@);
                        }
                    }
                    let ghost before = body@.map_values(|r: Vec<Cell>| cell_views(r@));
                    body.push(row);
                    assert(body@.map_values(|r: Vec<Cell>| cell_views(r@)) =~= before.push(cell_views(row@)));
                    assert(body_from(ls, k as int) =~= seq![cell_views(row@)] + body_from(ls, k + 1));
                    assert(body@.map_values(|r: Vec<Cell>| cell_views(r@)) + body_from(ls, k + 1) =~= before + body_from(ls, k as int));
                    k = k + 1;
                },
            }
        }
        assert(body_from(ls, k as int) =~= Seq::<Seq<(int, Seq<char>)>>::empty());
        assert(body@.map_values(|r: Vec<Cell>| cell_views(r@)) =~= body_from(ls, 2));
        let ghost all = seq![cell_views(header@)] + body_from(ls, 2);
        let ghost hv = cell_views(header@);
        let mut widths: Vec<usize> = Vec::new();
        while widths.len() < columns
            invariant
                widths@.len() <= columns,
                forall|j: int| 0 <= j < widths@.len() ==> widths@[j] == 0,
            decreases columns - widths.len(),
        {
            widths.push(0);
        }
        assert(widths@ =~= widths_spec(all, columns as nat, 0));
        widen_by(&mut widths, &header);
        assert(all[0] == hv);
        assert(widths@ == widths_spec(all, columns as nat, 1));
        let mut b: usize = 0;
        while b < body.len()
            invariant
                b <= body@.len(),
                all == seq![hv] + body_from(ls, 2),
                body@.map_values(|r: Vec<Cell>| cell_views(r@)) == body_from(ls, 2),
                widths@ == widths_spec(all, columns as nat, b + 1),
            decreases body.len() - b,
        {
            assert(all[b + 1] == cell_views(body@[b as int]@));
            widen_by(&mut widths, &body[b]);
            b = b + 1;
        }
        let ghost n = widths@.len() as int;
        assert(all.len() == body@.len() + 1);
        // Two spaces of padding per column, plus one rule per boundary.
        let mut span: usize = 0;
        let mut c: usize = 0;
        while c < widths.len()
            invariant
                c <= widths@.len(),
                span == span_of(widths@, c as int),
            decreases widths.len() - c,
        {
            let next = match span.checked_add(widths[c]) {
                Some(a) => a.checked_add(3),
                None => None,
            };
            match next {
                Some(a) => {
                    span = a;
                },
                None => {
                    proof {
                        lemma_span_grows(widths@, c + 1, widths@.len() as int);
                    }
                    return None;
                },
            }
            c = c + 1;
        }
        if span >= width {
            return None;
        }
        // Every row's grid text has to fit in memory.
        assert(cells_spec(ls[0].0) == Some(hv));
        assert(alignments_spec(ls[1].0) == Some(aligns@));
        assert(columns == columns_of(hv, aligns@));
        assert(widths@ == widths_spec(all, columns as nat, all.len() as int));
        assert(span_of(widths@, n) + 1 <= width);
        let Some(_) = row_len(&header, &widths, &aligns) else {
            assert(all[0] == hv);
            assert(row_spec(all[0], widths@, aligns@, n).0.len() > usize::MAX);

            return None;
        };
        let mut b: usize = 0;
        while b < body.len()
            invariant
                b <= body@.len(),
                all == seq![hv] + body_from(ls, 2),
                body@.map_values(|r: Vec<Cell>| cell_views(r@)) == body_from(ls, 2),
                forall|j: int| 0 <= j < b ==> (#[trigger] row_spec(all[j + 1], widths@, aligns@, n)).0.len() <= usize::MAX,
                n == widths@.len(),
            decreases body.len() - b,
        {
            assert(all[b + 1] == cell_views(body@[b as int]@));
            if row_len(&body[b], &widths, &aligns).is_none() {
                assert(row_spec(all[b + 1], widths@, aligns@, n).0.len() > usize::MAX);
                return None;
            }
            b = b + 1;
        }
        assert forall|j: int| 0 <= j < all.len() implies (#[trigger] row_spec(all[j], widths@, aligns@, n)).0.len() <= usize::MAX by {
            if j > 0 {
                assert(row_spec(all[(j - 1) + 1], widths@, aligns@, n).0.len() <= usize::MAX);
            }
        }
        assert(rows_fit(all, widths@, aligns@));
        let _len = head_chars.len();
        proof {
            lemma_body_len(ls, 2);
            lemma_cells_bounds(head_chars@);
            assert forall|c: int| 0 <= c < header@.len() implies (#[trigger] header@[c]).at + header@[c].text@.len() <= usize::MAX by {
                assert(hv[c] == header@[c]@);
            }
        }
        let table = draw(lines, &header, &body, &widths, &aligns);
        measure_grid_glyphs();
        proof {
            lemma_table_cols(ls, width as int);
        }
        Some(table)
    }

    /// How many source lines the table covers.
    pub fn len(&self) -> (n: usize)
        ensures
            n == self@.0.len(),
    {
        self.rows.len()
    }
}


/// Every row of a grid lines up with its rules: when each cell is as many columns wide as it
/// has characters and fits its column, the row is as long as the rule drawn over the same
/// columns — whatever the cells say and however they are aligned.
pub proof fn law_grid_rows_line_up(cells: Seq<(int, Seq<char>)>, widths: Seq<usize>, aligns: Seq<Align>, n: int, start: char, join: char, end: char)
    requires
        0 <= n <= widths.len(),
        cells.len() == widths.len(),
        forall|i: int| 0 <= i < cells.len() ==> cols_held(#[trigger] cells[i].1) == cells[i].1.len() && cells[i].1.len() <= widths[i],
    ensures
        row_spec(cells, widths, aligns, n).0.len() == rule_spec(widths, start, join, end, n).len(),
    decreases n,
{
    if n > 0 {
        law_grid_rows_line_up(cells, widths, aligns, n - 1, start, join, end);
        let text = cell_text(cells, n - 1);
        assert(cols_held(cells[n - 1].1) == cells[n - 1].1.len());
        let pad = less(widths[n - 1] as int, cols_held(text));
        let lr = sides(align_at(aligns, n - 1), pad);
        assert(lr.0 + lr.1 == pad);
    }
}

} // verus!
