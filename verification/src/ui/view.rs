//! What the paint layer hands back after a frame — which source character each screen cell
//! shows — and the small decisions a frame makes per row: the gutter cell, the part of a line
//! a selection covers, and where the view opens.

use vstd::prelude::*;
use vstd::string::*;

use crate::markup::{Pos, Tone};
use crate::text::{chars_of, decimal, push_decimal, repeat};
use crate::ui::column::{column_spec, content_column, text_area, text_area_spec, Area, GUTTER};
use crate::ui::card::{drawn_rows, drawn_rows_spec};
use crate::ui::style::{breaks_spec, ink_at, Ink, LineStyle, Run, StyleView};
use crate::ui::wrap::{lemma_rows_inside, sat, wrap, wrap_spec, Row};
use crate::ui::width::{cols, cols_of, str_width, width_of_str};

verus! {

/// One painted display row, and where its characters came from.
#[derive(Debug, Clone)]
pub struct PaintedRow {
    pub line: usize,
    /// Character offset of the row's first character within its source line.
    pub start: usize,
    pub text: String,
    /// The row belongs to a rendered table, which selects whole lines.
    pub linewise: bool,
}

/// Where a painted row's characters came from, and its text.
pub type RowView = (usize, usize, Seq<char>, bool);

impl View for PaintedRow {
    type V = RowView;

    open spec fn view(&self) -> RowView {
        (self.line, self.start, self.text@, self.linewise)
    }
}

/// What the last frame put on screen — how the app scrolls and hit-tests the mouse. A row
/// that is `None` is chrome: a border or a card, which takes height and selects nothing.
#[derive(Debug)]
pub struct Painted {
    rows: Vec<Option<PaintedRow>>,
    /// Source lines that fit whole.
    lines: usize,
    /// The first source line painted.
    top: usize,
    /// The text area the rows were painted into.
    area: Area,
}

pub open spec fn row_views(rows: Seq<Option<PaintedRow>>) -> Seq<Option<RowView>> {
    rows.map_values(|r: Option<PaintedRow>| match r {
        Some(p) => Some(p@),
        None => None,
    })
}

/// A frame the rest of the library can reason about: every row's characters have offsets
/// that fit, and every row sits on a screen row that exists.
pub open spec fn frame_fits(rows: Seq<Option<RowView>>, area: Area) -> bool {
    &&& area.x + area.width <= u16::MAX
    &&& area.y + rows.len() <= u16::MAX
    &&& forall|i: int| 0 <= i < rows.len() && (#[trigger] rows[i]) is Some ==> rows[i].unwrap().1 + rows[i].unwrap().2.len() <= usize::MAX
}

impl Painted {
    pub closed spec fn rows_view(&self) -> Seq<Option<RowView>> {
        row_views(self.rows@)
    }

    pub closed spec fn lines_view(&self) -> usize {
        self.lines
    }

    pub closed spec fn top_view(&self) -> usize {
        self.top
    }

    pub closed spec fn area_view(&self) -> Area {
        self.area
    }

    #[verifier::type_invariant]
    spec fn fits(&self) -> bool {
        frame_fits(row_views(self.rows@), self.area)
    }

    pub fn new(rows: Vec<Option<PaintedRow>>, lines: usize, top: usize, area: Area) -> (p: Painted)
        requires
            frame_fits(row_views(rows@), area),
        ensures
            p.rows_view() == row_views(rows@),
            p.lines_view() == lines,
            p.top_view() == top,
            p.area_view() == area,
    {
        Painted { rows, lines, top, area }
    }

    /// Nothing painted yet: no rows, one line to a page.
    pub fn empty() -> (p: Painted)
        ensures
            p.rows_view().len() == 0,
            p.lines_view() == 0,
            p.top_view() == 0,
            p.area_view() == (Area { x: 0, y: 0, width: 0, height: 0 }),
    {
        let p = Painted { rows: Vec::new(), lines: 0, top: 0, area: Area { x: 0, y: 0, width: 0, height: 0 } };
        assert(row_views(p.rows@) =~= Seq::empty());
        p
    }

    /// How many source lines a page holds — at least one, so paging always moves.
    pub fn page(&self) -> (n: usize)
        ensures
            n == if self.lines_view() >= 1 { self.lines_view() } else { 1 },
    {
        if self.lines >= 1 {
            self.lines
        } else {
            1
        }
    }

    /// The source lines the frame painted.
    pub fn lines(&self) -> (n: usize)
        ensures
            n == self.lines_view(),
    {
        self.lines
    }

    /// The first source line painted.
    pub fn top(&self) -> (n: usize)
        ensures
            n == self.top_view(),
    {
        self.top
    }

    /// The character under a screen cell: the row the cell's line shows, and the character
    /// the cell falls on — or the row's end, past its last character. Nothing above the area,
    /// below the rows, or on chrome.
    pub fn hit(&self, x: u16, y: u16) -> (r: Option<Pos>)
        ensures
            r == hit_spec(self.rows_view(), self.area_view(), x, y),
    {
        proof {
            use_type_invariant(self);
        }
        if y < self.area.y {
            return None;
        }
        let index = (y - self.area.y) as usize;
        if index >= self.rows.len() {
            return None;
        }
        assert(self.rows_view()[index as int] == match self.rows@[index as int] {
            Some(p) => Some(p@),
            None => None::<RowView>,
        });
        match &self.rows[index] {
            None => None,
            Some(row) => {
                let dx = if x >= self.area.x {
                    x - self.area.x
                } else {
                    0
                };
                let col = col_at(row.text.as_str(), dx);
                Some(Pos { line: row.line, col: row.start + col })
            },
        }
    }

    /// The screen cell a position sits on, for placing the terminal's cursor: on the last row
    /// of its line that starts at or before it, after the columns of the characters before it
    /// in that row, kept inside the area.
    pub fn caret(&self, pos: Pos) -> (r: Option<(u16, u16)>)
        ensures
            r == caret_spec(self.rows_view(), self.area_view(), pos),
    {
        proof {
            use_type_invariant(self);
        }
        let ghost rows = self.rows_view();
        let mut i = self.rows.len();
        while i > 0
            invariant
                i <= rows.len(),
                rows == self.rows_view(),
                frame_fits(rows, self.area),
                last_row_from(rows, pos, rows.len() as int) == last_row_from(rows, pos, i as int),
            decreases i,
        {
            let k = i - 1;
            assert(rows[k as int] == match self.rows@[k as int] {
                Some(p) => Some(p@),
                None => None::<RowView>,
            });
            match &self.rows[k] {
                Some(row) => {
                    if row.line == pos.line && row.start <= pos.col {
                        let chars = chars_of(row.text.as_str());
                        let take = pos.col - row.start;
                        let cells = cells_before(&chars, take);
                        let right = self.area.x + self.area.width;
                        let limit = if right >= 1 { right - 1 } else { 0 };
                        let x0 = self.area.x.saturating_add(cells);
                        let x = if x0 <= limit { x0 } else { limit };
                        return Some((x, self.area.y + (k as u16)));
                    }
                },
                None => {},
            }
            i = k;
        }
        None
    }
}

/// The offset of the character whose cell `dx` columns into `text` falls on — or the length
/// of `text` when `dx` runs past it.
pub open spec fn col_spec(text: Seq<char>, dx: int) -> int
    decreases text.len(),
{
    col_from(text, dx, 0, 0)
}

/// Scanning from character `k`, with `used` columns already taken before it.
pub open spec fn col_from(text: Seq<char>, dx: int, k: int, used: int) -> int
    decreases text.len() - k,
{
    if k < 0 || k >= text.len() {
        text.len() as int
    } else if used + cols(text[k]) > dx {
        k
    } else {
        col_from(text, dx, k + 1, used + cols(text[k]))
    }
}

pub fn col_at(text: &str, dx: u16) -> (col: usize)
    ensures
        col == col_spec(text@, dx as int),
        col <= text@.len(),
{
    let chars = chars_of(text);
    let mut used: usize = 0;
    let mut k: usize = 0;
    while k < chars.len()
        invariant
            k <= chars@.len(),
            chars@ == text@,
            used <= dx,
            col_spec(text@, dx as int) == col_from(text@, dx as int, k as int, used as int),
        decreases chars.len() - k,
    {
        let w = cols_of(chars[k]);
        if w > (dx as usize) - used {
            return k;
        }
        used = used + w;
        k = k + 1;
    }
    k
}

pub open spec fn hit_spec(rows: Seq<Option<RowView>>, area: Area, x: u16, y: u16) -> Option<Pos> {
    if y < area.y || y - area.y >= rows.len() {
        None
    } else {
        match rows[y - area.y] {
            None => None,
            Some(row) => {
                let dx = if x >= area.x { x - area.x } else { 0 };
                Some(Pos { line: row.0, col: (row.1 + col_spec(row.2, dx)) as usize })
            },
        }
    }
}

/// The last row before `i` that shows `pos`'s line from at or before `pos`.
pub open spec fn last_row_from(rows: Seq<Option<RowView>>, pos: Pos, i: int) -> Option<int>
    decreases i,
{
    if i <= 0 || i > rows.len() {
        None
    } else {
        match rows[i - 1] {
            Some(row) => if row.0 == pos.line && row.1 <= pos.col {
                Some(i - 1)
            } else {
                last_row_from(rows, pos, i - 1)
            },
            None => last_row_from(rows, pos, i - 1),
        }
    }
}

/// Columns the first `k` characters of `text` take, counted no further than a screen row
/// can reach.
pub open spec fn cells_spec(text: Seq<char>, k: int) -> int
    decreases k,
{
    if k <= 0 || text.len() == 0 {
        0
    } else if k > text.len() {
        cells_spec(text, text.len() as int)
    } else {
        cells_spec(text, k - 1) + cols(text[k - 1])
    }
}

pub open spec fn cap16(n: int) -> int {
    if n > u16::MAX {
        u16::MAX as int
    } else {
        n
    }
}

pub open spec fn caret_spec(rows: Seq<Option<RowView>>, area: Area, pos: Pos) -> Option<(u16, u16)> {
    match last_row_from(rows, pos, rows.len() as int) {
        None => None,
        Some(k) => {
            let row = rows[k].unwrap();
            let cells = cap16(cells_spec(row.2, pos.col - row.1));
            let limit = if area.x + area.width >= 1 { area.x + area.width - 1 } else { 0 };
            let x0 = cap16(area.x + cells);
            Some(((if x0 <= limit { x0 } else { limit }) as u16, (area.y + k) as u16))
        },
    }
}

/// Columns the first `take` characters of `chars` take, capped at the widest a screen gets.
fn cells_before(chars: &[char], take: usize) -> (n: u16)
    ensures
        n == cap16(cells_spec(chars@, take as int)),
{
    let stop = if take <= chars.len() {
        take
    } else {
        chars.len()
    };
    let mut sum: usize = 0;
    let mut k: usize = 0;
    while k < stop
        invariant
            k <= stop <= chars@.len(),
            stop == if take <= chars@.len() { take as int } else { chars@.len() as int },
            sum <= u16::MAX,
            cap16(cells_spec(chars@, k as int)) == sum,
            cells_spec(chars@, k as int) >= 0,
        decreases stop - k,
    {
        let w = cols_of(chars[k]);
        proof {
            assert(cells_spec(chars@, k + 1) == cells_spec(chars@, k as int) + cols(chars@[k as int]));
        }
        if w >= 65535 - sum {
            proof {
                lemma_cells_grow(chars@, k + 1, take as int);
            }
            return 65535;
        }
        sum = sum + w;
        k = k + 1;
    }
    proof {
        if take > chars@.len() && chars@.len() > 0 {
            assert(cells_spec(chars@, take as int) == cells_spec(chars@, chars@.len() as int));
        }
    }
    sum as u16
}

proof fn lemma_cells_grow(text: Seq<char>, k: int, n: int)
    requires
        0 <= k <= n,
    ensures
        cells_spec(text, k) <= cells_spec(text, n),
    decreases n,
{
    if n > 0 && text.len() > 0 {
        if n > text.len() {
            if k > text.len() {
            } else {
                lemma_cells_grow(text, k, text.len() as int);
            }
        } else if k < n {
            lemma_cells_grow(text, k, n - 1);
            assert(cols(text[n - 1]) >= 0);
        }
    }
}


/// A banked pair as the paint layer sees it: its number, the lines its quote covers, its
/// question, and the quote's first line.
#[derive(Debug, Clone, Copy)]
pub struct Banked<'a> {
    pub number: usize,
    pub from: usize,
    pub to: usize,
    pub question: &'a str,
    pub quote: &'a str,
}

/// A gutter cell and how bright it reads: a turn marker takes its own turn's tone, so an
/// answer opens with a full-strength dot and a prompt stays as quiet as its text; `None`
/// reads dim.
#[derive(Debug, Clone, PartialEq, Eq)]
pub struct Mark {
    pub text: String,
    pub tone: Option<Tone>,
}

/// Marks the first line of an agent turn, and of a user prompt.
pub const AGENT_TURN: char = '●';
pub const USER_TURN: char = '❯';

/// The first pair at or after `i` whose lines cover `line`.
pub open spec fn pair_covering(pairs: Seq<(usize, usize, usize)>, line: int, i: int) -> Option<int>
    decreases pairs.len() - i,
{
    if i < 0 || i >= pairs.len() {
        None
    } else if pairs[i].1 <= line <= pairs[i].2 {
        Some(i)
    } else {
        pair_covering(pairs, line, i + 1)
    }
}

pub open spec fn banked_views(banked: Seq<Banked>) -> Seq<(usize, usize, usize)> {
    banked.map_values(|b: Banked| (b.number, b.from, b.to))
}

/// `s` right-aligned in the two cells before the gutter's last one.
pub open spec fn right2(s: Seq<char>) -> Seq<char> {
    repeat(' ', (if s.len() >= 2 { 0 } else { 2 - s.len() }) as nat) + s
}

/// The gutter cell for a row: a banked pair's number where its range opens and a bar down the
/// rest of it, a turn marker where a turn opens, blank elsewhere. Banking wins the cell — it is
/// the rarer signal, and a turn boundary is still readable from the text. `numbered` is false
/// on a wrapped continuation row and on a card; `tone` is the line's own, when it has one.
pub open spec fn mark_spec(pairs: Seq<(usize, usize, usize)>, turns: Seq<usize>, tone: Option<Tone>, line: usize, numbered: bool) -> (Seq<char>, Option<Tone>) {
    match pair_covering(pairs, line as int, 0) {
        Some(k) => (
            right2(if numbered && line == pairs[k].1 { decimal(pairs[k].0 as nat) } else { Seq::empty() }) + seq!['│'],
            None,
        ),
        None => if !numbered || !turns.contains(line) {
            (repeat(' ', 3), None)
        } else {
            let t = match tone {
                Some(t) => t,
                None => Tone::Agent,
            };
            (seq![' ', if t == Tone::User { USER_TURN } else { AGENT_TURN }, ' '], Some(t))
        },
    }
}

pub fn mark(banked: &[Banked], turns: &[usize], tone: Option<Tone>, line: usize, numbered: bool) -> (m: Mark)
    ensures
        (m.text@, m.tone) == mark_spec(banked_views(banked@), turns@, tone, line, numbered),
{
    let ghost pairs = banked_views(banked@);
    let mut i: usize = 0;
    while i < banked.len()
        invariant
            i <= banked@.len(),
            pairs == banked_views(banked@),
            pair_covering(pairs, line as int, 0) == pair_covering(pairs, line as int, i as int),
        decreases banked.len() - i,
    {
        let pair = &banked[i];
        assert(pairs[i as int] == (pair.number, pair.from, pair.to));
        if pair.from <= line && line <= pair.to {
            let mut number = String::new();
            if numbered && line == pair.from {
                push_decimal(&mut number, pair.number);
            }
            let mut text = String::new();
            if number.as_str().unicode_len() < 2 {
                crate::text::push_repeat(&mut text, ' ', 2 - number.as_str().unicode_len());
            }
            text.append(number.as_str());
            text.push('│');
            assert(text@ =~= mark_spec(pairs, turns@, tone, line, numbered).0);
            return Mark { text, tone: None };
        }
        i = i + 1;
    }
    let mut turn = false;
    let mut j: usize = 0;
    while j < turns.len()
        invariant
            j <= turns@.len(),
            turn == exists|k: int| 0 <= k < j && turns@[k] == line,
        decreases turns.len() - j,
    {
        if turns[j] == line {
            turn = true;
        }
        j = j + 1;
    }
    proof {
        if turn {
            let k = choose|k: int| 0 <= k < turns@.len() && turns@[k] == line;
            assert(turns@.contains(line));
        }
    }
    if !numbered || !turn {
        let mut text = String::new();
        crate::text::push_repeat(&mut text, ' ', 3);
        return Mark { text, tone: None };
    }
    let t = match tone {
        Some(t) => t,
        None => Tone::Agent,
    };
    let mut text = String::new();
    text.push(' ');
    text.push(if t == Tone::User { USER_TURN } else { AGENT_TURN });
    text.push(' ');
    assert(text@ =~= mark_spec(pairs, turns@, tone, line, numbered).0);
    Mark { text, tone: Some(t) }
}

/// The columns of `line` a selection covers, unbounded at an end the range passes through.
pub open spec fn selected_spec(selection: Option<(Pos, Pos)>, line: usize) -> Option<(usize, usize)> {
    match selection {
        Some((from, to)) => if from.line <= line <= to.line {
            Some((
                if line == from.line { from.col } else { 0 },
                if line == to.line { to.col } else { usize::MAX },
            ))
        } else {
            None
        },
        None => None,
    }
}

pub fn selected(selection: Option<(Pos, Pos)>, line: usize) -> (r: Option<(usize, usize)>)
    ensures
        r == selected_spec(selection, line),
{
    match selection {
        Some((from, to)) => {
            if from.line <= line && line <= to.line {
                let start = if line == from.line {
                    from.col
                } else {
                    0
                };
                let end = if line == to.line {
                    to.col
                } else {
                    usize::MAX
                };
                Some((start, end))
            } else {
                None
            }
        },
        None => None,
    }
}

/// The topmost line that still leaves the last one at the bottom, given the rows each line
/// takes: walking up from the end until `height` rows are filled. A line that would only half
/// fit is left above the viewport rather than clipped — save the last line itself, which is
/// always shown, clipped if it must be.
pub open spec fn bottom_from(heights: Seq<usize>, height: int, i: int, rows: int) -> int
    decreases i,
{
    if i <= 0 || i > heights.len() {
        0
    } else if rows + heights[i - 1] >= height {
        (i - 1) + if rows + heights[i - 1] > height && i < heights.len() { 1int } else { 0int }
    } else {
        bottom_from(heights, height, i - 1, rows + heights[i - 1])
    }
}


/// How many source lines a frame of `height` rows paints, walking down from line `i` with
/// `rows` already drawn, given the rows each line takes. A line that would only half fit
/// waits for the next scroll — except the first, which always shows (clipped if it must) —
/// and nothing follows once the frame is full.
pub open spec fn fit_from(heights: Seq<usize>, height: int, i: int, rows: int) -> int
    decreases heights.len() - i,
{
    if i < 0 || i >= heights.len() {
        0
    } else if rows > 0 && rows + heights[i] > height {
        0
    } else if rows + heights[i] >= height {
        1
    } else {
        1 + fit_from(heights, height, i + 1, rows + heights[i])
    }
}

/// The rows lines `a..b` take together.
pub open spec fn rows_between(heights: Seq<usize>, a: int, b: int) -> int
    decreases b - a,
{
    if a >= b {
        0
    } else {
        heights[a] + rows_between(heights, a + 1, b)
    }
}

proof fn lemma_rows_split_last(heights: Seq<usize>, a: int, b: int)
    requires
        a < b,
    ensures
        rows_between(heights, a, b) == rows_between(heights, a, b - 1) + heights[b - 1],
    decreases b - a,
{
    assert(rows_between(heights, a, b) == heights[a] + rows_between(heights, a + 1, b));
    if a + 1 < b {
        lemma_rows_split_last(heights, a + 1, b);
        assert(rows_between(heights, a, b - 1) == heights[a] + rows_between(heights, a + 1, b - 1));
    } else {
        assert(rows_between(heights, a + 1, b) == 0);
        assert(rows_between(heights, a, b - 1) == 0);
    }
}

/// Walking up from line `i` with `rows` already counted stops on a line from which the rest,
/// down to line `i`, still fits — on the line just above `i` itself when that one fits — or,
/// when the last line alone overflows the room, on the last line.
proof fn lemma_bottom_fits(heights: Seq<usize>, room: int, i: int, rows: int)
    requires
        0 <= i <= heights.len(),
        0 <= rows <= room,
    ensures
        0 <= bottom_from(heights, room, i, rows) <= i,
        rows + rows_between(heights, bottom_from(heights, room, i, rows), i) <= room || (i
            == heights.len() && i > 0 && rows + heights[i - 1] > room && bottom_from(heights, room, i, rows) == i - 1),
        i > 0 && rows + heights[i - 1] <= room ==> bottom_from(heights, room, i, rows) < i,
        i > 0 && i == heights.len() ==> bottom_from(heights, room, i, rows) < i,
    decreases i,
{
    if i > 0 {
        lemma_rows_split_last(heights, i - 1, i);
        if rows + heights[i - 1] < room {
            lemma_bottom_fits(heights, room, i - 1, rows + heights[i - 1]);
            let t = bottom_from(heights, room, i - 1, rows + heights[i - 1]);
            if t < i {
                lemma_rows_split_last(heights, t, i);
            }
        }
    }
}

/// Lines of a row or more that fit together in a frame all get painted.
proof fn lemma_fit_all(heights: Seq<usize>, height: int, i: int, rows: int)
    requires
        0 <= i <= heights.len(),
        0 <= rows,
        rows + rows_between(heights, i, heights.len() as int) <= height,
        forall|k: int| 0 <= k < heights.len() ==> #[trigger] heights[k] >= 1,
    ensures
        fit_from(heights, height, i, rows) == heights.len() - i,
    decreases heights.len() - i,
{
    if i < heights.len() {
        if i + 1 < heights.len() {
            assert(rows_between(heights, i, heights.len() as int) == heights[i] + rows_between(heights, i + 1, heights.len() as int));
            assert(rows_between(heights, i + 1, heights.len() as int) == heights[i + 1] + rows_between(heights, i + 2, heights.len() as int));
            assert(rows_between(heights, i, heights.len() as int) == heights[i] + heights[i + 1] + rows_between(
                heights,
                i + 2,
                heights.len() as int,
            ));
            assert(rows_between(heights, i + 2, heights.len() as int) >= 0) by {
                lemma_rows_nonneg(heights, i + 2, heights.len() as int);
            }
            assert(heights[i + 1] >= 1);
            lemma_fit_all(heights, height, i + 1, rows + heights[i]);
            assert(rows + heights[i] < height);
            assert(fit_from(heights, height, i, rows) == 1 + fit_from(heights, height, i + 1, rows + heights[i]));
        } else {
            assert(rows_between(heights, i, heights.len() as int) == heights[i] + rows_between(heights, i + 1, heights.len() as int));
            assert(rows_between(heights, i + 1, heights.len() as int) == 0);
            assert(fit_from(heights, height, i + 1, rows + heights[i]) == 0);
        }
    }
}

proof fn lemma_rows_nonneg(heights: Seq<usize>, a: int, b: int)
    ensures
        rows_between(heights, a, b) >= 0,
    decreases b - a,
{
    if a < b {
        lemma_rows_nonneg(heights, a + 1, b);
    }
}

/// The picker opens on the newest line: walked up from the end for a room of `room` rows, the
/// view then paints every line from where it starts down to the last one, in a frame at least
/// that tall — the last line alone, clipped, when it is taller than the room by itself.
pub proof fn law_opening_shows_the_last_line(heights: Seq<usize>, room: int, height: int)
    requires
        heights.len() > 0,
        forall|k: int| 0 <= k < heights.len() ==> #[trigger] heights[k] >= 1,
        1 <= room <= height,
    ensures
        bottom_from(heights, room, heights.len() as int, 0) < heights.len(),
        bottom_from(heights, room, heights.len() as int, 0) + fit_from(
            heights,
            height,
            bottom_from(heights, room, heights.len() as int, 0),
            0,
        ) == heights.len(),
{
    lemma_bottom_fits(heights, room, heights.len() as int, 0);
    let top = bottom_from(heights, room, heights.len() as int, 0);
    if rows_between(heights, top, heights.len() as int) <= room {
        lemma_fit_all(heights, height, top, 0);
    } else {
        assert(fit_from(heights, height, top + 1, heights[top] as int) == 0);
    }
}

/// Whether `v` is strictly increasing.
pub open spec fn increasing(v: Seq<usize>) -> bool {
    forall|i: int, j: int| 0 <= i < j < v.len() ==> v[i] < v[j]
}

/// Where a row of source characters `start..end` has to be cut: its own ends, the
/// selection's ends that fall inside it, and every offset where its ink changes.
pub open spec fn cut_points(start: usize, end: usize, breaks: Seq<usize>, selection: (usize, usize)) -> Set<usize> {
    set![start, end].union(Set::new(|c: usize| (c == selection.0 || c == selection.1) && start <= c < end)).union(
        breaks.to_set(),
    )
}

/// `v` with `x` put in its place, unless it is already there.
fn insert_sorted(v: &mut Vec<usize>, x: usize)
    requires
        increasing(old(v)@),
    ensures
        increasing(final(v)@),
        final(v)@.to_set() == old(v)@.to_set().insert(x),
{
    let mut k: usize = 0;
    while k < v.len() && v[k] < x
        invariant
            k <= v@.len(),
            v@ == old(v)@,
            increasing(v@),
            forall|j: int| 0 <= j < k ==> v@[j] < x,
        decreases v.len() - k,
    {
        k = k + 1;
    }
    if k < v.len() && v[k] == x {
        assert(v@.to_set() =~= old(v)@.to_set().insert(x)) by {
            assert(v@.contains(x));
        }
        return;
    }
    let ghost before = v@;
    v.insert(k, x);
    proof {
        assert forall|i: int, j: int| 0 <= i < j < v@.len() implies v@[i] < v@[j] by {
            if j < k {
            } else if i < k && j == k {
            } else if i < k && j > k {
                assert(v@[j] == before[j - 1]);
                assert(x < before[j - 1]) by {
                    assert(before[k as int] > x || before[k as int] == x);
                }
            } else if i == k {
                assert(v@[j] == before[j - 1]);
            } else {
                assert(v@[i] == before[i - 1]);
                assert(v@[j] == before[j - 1]);
            }
        }
        assert forall|c: usize| v@.to_set().contains(c) <==> before.to_set().insert(x).contains(c) by {
            if v@.to_set().contains(c) {
                let i = choose|i: int| 0 <= i < v@.len() && v@[i] == c;
                if i < k {
                    assert(before[i] == c);
                } else if i > k {
                    assert(before[i - 1] == c);
                }
            }
            if before.to_set().contains(c) {
                let i = choose|i: int| 0 <= i < before.len() && before[i] == c;
                if i < k {
                    assert(v@[i] == c);
                } else {
                    assert(v@[i + 1] == c);
                }
            }
            if c == x {
                assert(v@[k as int] == x);
            }
        }
        assert(v@.to_set() =~= before.to_set().insert(x));
    }
}

/// Character offsets a row has to be cut at, each once and in order: its own ends, the
/// selection's ends inside it, and every point its ink changes.
pub fn cuts(start: usize, end: usize, breaks: &[usize], selection: (usize, usize)) -> (out: Vec<usize>)
    ensures
        increasing(out@),
        out@.to_set() == cut_points(start, end, breaks@, selection),
{
    let mut out: Vec<usize> = Vec::new();
    assert(out@.to_set() =~= Set::<usize>::empty());
    insert_sorted(&mut out, start);
    insert_sorted(&mut out, end);
    let ghost ends = set![start, end];
    assert(out@.to_set() =~= ends);
    let ghost inside = Set::new(|c: usize| (c == selection.0 || c == selection.1) && start <= c < end);
    if start <= selection.0 && selection.0 < end {
        insert_sorted(&mut out, selection.0);
    }
    if start <= selection.1 && selection.1 < end {
        insert_sorted(&mut out, selection.1);
    }
    assert(out@.to_set() =~= ends.union(inside));
    let mut i: usize = 0;
    while i < breaks.len()
        invariant
            i <= breaks@.len(),
            increasing(out@),
            out@.to_set() == ends.union(inside).union(breaks@.take(i as int).to_set()),
        decreases breaks.len() - i,
    {
        let ghost before = out@.to_set();
        insert_sorted(&mut out, breaks[i]);
        proof {
            assert(breaks@.take(i + 1) =~= breaks@.take(i as int).push(breaks@[i as int]));
            assert(breaks@.take(i + 1).to_set() =~= breaks@.take(i as int).to_set().insert(breaks@[i as int])) by {
                breaks@.take(i as int).lemma_push_to_set_commute(breaks@[i as int]);
            }
            assert(out@.to_set() =~= ends.union(inside).union(breaks@.take(i + 1).to_set()));
        }
        i = i + 1;
    }
    assert(breaks@.take(breaks@.len() as int) =~= breaks@);
    out
}


/// A row cut wherever the selection starts or stops inside it has no selection end strictly
/// inside a piece, so every character of a piece shares the light of its first one.
pub proof fn lemma_pieces_share_light(
    start: usize,
    end: usize,
    breaks: Seq<usize>,
    selection: (usize, usize),
    cuts: Seq<usize>,
    i: int,
    c: usize,
)
    requires
        forall|k: int| 0 <= k < breaks.len() ==> start <= #[trigger] breaks[k] < end,
        increasing(cuts),
        cuts.to_set() == cut_points(start, end, breaks, selection),
        0 <= i,
        i + 1 < cuts.len(),
        cuts[i] <= c < cuts[i + 1],
        start <= c < end,
    ensures
        (selection.0 <= cuts[i] < selection.1) == (selection.0 <= c < selection.1),
{
    let points = cut_points(start, end, breaks, selection);
    assert(points.contains(cuts[i])) by {
        assert(cuts.to_set().contains(cuts[i]));
    }
    assert(start <= cuts[i]) by {
        if cuts[i] != start && cuts[i] != end && !(start <= cuts[i] < end) {
            let k = choose|k: int| 0 <= k < breaks.len() && breaks[k] == cuts[i];
            assert(start <= breaks[k]);
        }
    }
    assert forall|x: usize| cuts[i] < x <= c implies !points.contains(x) by {
        if points.contains(x) {
            assert(cuts.to_set().contains(x));
            let j = choose|j: int| 0 <= j < cuts.len() && cuts[j] == x;
            if j <= i {
                assert(cuts[j] <= cuts[i]);
            } else {
                assert(cuts[i + 1] <= cuts[j]);
            }
        }
    }
    if cuts[i] < selection.0 <= c {
        assert(points.contains(selection.0));
    }
    if cuts[i] < selection.1 <= c {
        assert(points.contains(selection.1));
    }
}

/// How a display row paints, as the contracts see it: its cuts, each piece's ink and light,
/// and whether the padding after it is lit.
pub type RowPaintView = (Seq<usize>, Seq<(Ink, bool)>, bool);

/// How a display row of source characters `start..end` paints, under a line style's runs (if
/// it has one) and the columns the selection covers on its line (if any): cut as `cuts` cuts
/// it, each piece in the ink of its first character — the base, without a style — and lit
/// exactly when the selection covers that character; the padding after the row lit only when
/// the selection runs on past its end.
pub open spec fn paints(p: RowPaintView, start: usize, end: usize, runs: Option<Seq<Run>>, columns: Option<(usize, usize)>) -> bool {
    let (from, stop) = match columns {
        Some(c) => c,
        None => (end, end),
    };
    let breaks = match runs {
        Some(r) => breaks_spec(r, start, end),
        None => Seq::empty(),
    };
    &&& increasing(p.0)
    &&& p.0.to_set() == cut_points(start, end, breaks, (from, stop))
    &&& p.1.len() + 1 == p.0.len()
    &&& forall|i: int|
        0 <= i < p.1.len() ==> #[trigger] p.1[i] == (
            match runs {
                Some(r) => ink_at(r, p.0[i], r.len() as int),
                None => Ink::Plain,
            },
            from <= p.0[i] < stop,
        )
    &&& p.2 == (stop > end && from <= end)
}

/// The run starts inside `from..to` lie inside it.
pub proof fn lemma_breaks_inside(runs: Seq<Run>, from: usize, to: usize)
    ensures
        forall|k: int| 0 <= k < breaks_spec(runs, from, to).len() ==> from <= #[trigger] breaks_spec(runs, from, to)[k] < to,
    decreases runs.len(),
{
    if runs.len() > 0 {
        lemma_breaks_inside(runs.drop_last(), from, to);
        let rest = breaks_spec(runs.drop_last(), from, to);
        let all = breaks_spec(runs, from, to);
        assert forall|k: int| 0 <= k < all.len() implies from <= #[trigger] all[k] < to by {
            if k < rest.len() {
                assert(all[k] == rest[k]);
            }
        }
    }
}

/// What is lit is exactly what is selected: every character of a painted row sits in a piece
/// that is lit if and only if the selection covers that character.
pub proof fn law_light_is_the_selection(
    p: RowPaintView,
    start: usize,
    end: usize,
    runs: Option<Seq<Run>>,
    columns: Option<(usize, usize)>,
    i: int,
    c: usize,
)
    requires
        paints(p, start, end, runs, columns),
        0 <= i < p.1.len(),
        p.0[i] <= c < p.0[i + 1],
        start <= c < end,
    ensures
        p.1[i].1 == match columns {
            Some(range) => range.0 <= c < range.1,
            None => false,
        },
{
    let (from, stop) = match columns {
        Some(range) => range,
        None => (end, end),
    };
    let breaks = match runs {
        Some(r) => breaks_spec(r, start, end),
        None => Seq::empty(),
    };
    if let Some(r) = runs {
        lemma_breaks_inside(r, start, end);
    }
    lemma_pieces_share_light(start, end, breaks, (from, stop), p.0, i, c);
}

/// A display row's cuts, the ink and light of each piece between them, and whether the
/// padding after it is lit.
#[derive(Debug)]
pub struct RowPaint {
    pub cuts: Vec<usize>,
    pub pieces: Vec<(Ink, bool)>,
    pub padding_lit: bool,
}

/// How the row of `text` starting at offset `start` of its line paints.
pub fn row_paint(start: usize, text: &str, style: Option<&LineStyle>, columns: Option<(usize, usize)>) -> (p: RowPaint)
    ensures
        paints(
            (p.cuts@, p.pieces@, p.padding_lit),
            start,
            sat(start + text@.len()) as usize,
            match style {
                Some(s) => Some(s@.0),
                None => None,
            },
            columns,
        ),
{
    let n = chars_of(text).len();
    let end = start.saturating_add(n);
    let (from, stop) = match columns {
        Some(c) => c,
        None => (end, end),
    };
    let breaks = match style {
        Some(s) => s.breaks(start, end),
        None => Vec::new(),
    };
    let points = cuts(start, end, &breaks, (from, stop));
    assert(points@.len() > 0) by {
        assert(cut_points(start, end, breaks@, (from, stop)).contains(start));
        assert(points@.to_set().contains(start));
    }
    let ghost runs = match style {
        Some(s) => Some(s@.0),
        None => None::<Seq<Run>>,
    };
    let mut pieces: Vec<(Ink, bool)> = Vec::new();
    let last = points.len() - 1;
    let mut i: usize = 0;
    while i < last
        invariant
            last + 1 == points@.len(),
            i <= last,
            pieces@.len() == i,
            runs == match style {
                Some(s) => Some(s@.0),
                None => None::<Seq<Run>>,
            },
            forall|k: int|
                0 <= k < i ==> #[trigger] pieces@[k] == (
                    match runs {
                        Some(r) => ink_at(r, points@[k], r.len() as int),
                        None => Ink::Plain,
                    },
                    from <= points@[k] < stop,
                ),
        decreases points.len() - i,
    {
        let at = points[i];
        let ink = match style {
            Some(s) => s.at(at),
            None => Ink::Plain,
        };
        pieces.push((ink, from <= at && at < stop));
        i = i + 1;
    }
    RowPaint { cuts: points, pieces, padding_lit: stop > end && from <= end }
}

/// Whether a line's style can be painted at `width` columns: what it renders to, if anything,
/// fits. A table laid out for the full measure falls back to raw markdown on a narrower pane.
pub open spec fn style_fits(style: StyleView, width: usize) -> bool {
    match style.1 {
        Some(text) => str_width(text) <= width,
        None => true,
    }
}

/// Line `line`'s style, dropped when what it renders to is wider than the column.
pub fn fitting<'a>(styles: &'a [LineStyle], line: usize, width: usize) -> (r: Option<&'a LineStyle>)
    ensures
        match r {
            Some(s) => line < styles@.len() && s@ == styles@[line as int]@ && style_fits(s@, width),
            None => line >= styles@.len() || !style_fits(styles@[line as int]@, width),
        },
{
    if line >= styles.len() {
        return None;
    }
    let style = &styles[line];
    match style.display() {
        Some(text) => {
            if width_of_str(text) <= width {
                Some(style)
            } else {
                None
            }
        },
        None => Some(style),
    }
}

/// What a line paints as: its rendered form when it has one that fits, else the source.
pub fn shown<'a>(styles: &'a [LineStyle], line: usize, source: &'a str, width: usize) -> (out: &'a str)
    ensures
        out@ == if line < styles@.len() && style_fits(styles@[line as int]@, width) && styles@[line as int]@.1 is Some {
            styles@[line as int]@.1.unwrap()
        } else {
            source@
        },
{
    match fitting(styles, line, width) {
        Some(style) => match style.display() {
            Some(text) => text,
            None => source,
        },
        None => source,
    }
}

/// Chrome rows a line's style hangs above and below it — a rendered table's borders.
pub fn chrome_rows(style: Option<&LineStyle>) -> (n: usize)
    ensures
        n == match style {
            Some(s) => (if s@.2 is Some { 1int } else { 0 }) + (if s@.3 is Some { 1int } else { 0 }),
            None => 0,
        },
{
    match style {
        Some(s) => {
            let above: usize = if s.above_row().is_some() { 1 } else { 0 };
            let below: usize = if s.below_row().is_some() { 1 } else { 0 };
            above + below
        },
        None => 0,
    }
}

/// What line `line` paints as at `width`: its rendered form when it has one that fits, else
/// the source.
pub open spec fn shown_spec(styles: Seq<LineStyle>, line: usize, source: Seq<char>, width: usize) -> Seq<char> {
    if line < styles.len() && style_fits(styles[line as int]@, width) && styles[line as int]@.1 is Some {
        styles[line as int]@.1.unwrap()
    } else {
        source
    }
}

/// Chrome rows line `line`'s style hangs around it at `width`: none when the style is dropped.
pub open spec fn chrome_spec(styles: Seq<LineStyle>, line: usize, width: usize) -> int {
    if line < styles.len() && style_fits(styles[line as int]@, width) {
        (if styles[line as int]@.2 is Some { 1int } else { 0 }) + (if styles[line as int]@.3 is Some { 1int } else { 0 })
    } else {
        0
    }
}

/// One source line, as the paint layer sees it.
#[derive(Debug, Clone, Copy)]
pub struct SourceLine<'a> {
    pub text: &'a str,
    pub tone: Tone,
}

/// Where the view opens: from a given line, or wherever leaves the last line at the bottom.
#[derive(Debug, Clone, Copy, PartialEq, Eq, Structural)]
pub enum Scroll {
    From(usize),
    Bottom,
}

/// Everything the picker paints, filled each frame.
#[derive(Debug)]
pub struct Screen<'a> {
    pub lines: &'a [SourceLine<'a>],
    /// Each line's styling, as the prose pass left it.
    pub styles: &'a [LineStyle],
    pub measure: u16,
    /// First line of each turn, for the gutter's turn markers.
    pub turns: &'a [usize],
    /// Where the caret sits — painted as the terminal's own cursor.
    pub cursor: Pos,
    /// The live selection, in reading order.
    pub selection: Option<(Pos, Pos)>,
    pub banked: &'a [Banked<'a>],
    pub scroll: Scroll,
    /// The question being typed, when the box is open.
    pub question: Option<&'a str>,
    pub status: &'a str,
}

/// Card rows hung under `line` by the first `k` pairs — each pair whose range ends on it —
/// held at the top of `usize`.
pub open spec fn cards_from(banked: Seq<Banked>, line: usize, width: int, k: int) -> int
    decreases k,
{
    if k <= 0 || k > banked.len() {
        0
    } else {
        let b = banked[k - 1];
        sat(cards_from(banked, line, width, k - 1) + if b.to == line {
            drawn_rows_spec(b.number as nat, b.question@, b.quote@, width)
        } else {
            0
        })
    }
}

/// Rows source line `line` takes at `width`: its wrapped rows, the cards under it, and its
/// chrome — held at the top of `usize`.
pub open spec fn line_rows_spec(view: Screen, line: int, width: usize) -> int {
    let wrapped = wrap_spec(shown_spec(view.styles@, line as usize, view.lines@[line].text@, width), width as int).len();
    let cards = cards_from(view.banked@, line as usize, width as int, view.banked@.len() as int);
    sat(sat(wrapped + cards) + chrome_spec(view.styles@, line as usize, width))
}

/// The rows each source line takes at `width`.
pub open spec fn heights_spec(view: Screen, width: usize) -> Seq<usize> {
    Seq::new(view.lines@.len(), |i: int| line_rows_spec(view, i, width) as usize)
}

/// Card rows hung under `line`.
pub fn cards_rows(banked: &[Banked], line: usize, width: usize) -> (n: usize)
    ensures
        n == cards_from(banked@, line, width as int, banked@.len() as int),
{
    let mut n: usize = 0;
    let mut k: usize = 0;
    while k < banked.len()
        invariant
            k <= banked@.len(),
            n == cards_from(banked@, line, width as int, k as int),
        decreases banked.len() - k,
    {
        let b = banked[k];
        if b.to == line {
            n = n.saturating_add(drawn_rows(b.number, b.question, b.quote, width));
        } else {
            n = n.saturating_add(0);
        }
        k = k + 1;
    }
    n
}

/// Rows source line `line` takes at `width`.
pub fn line_rows(view: &Screen, line: usize, width: usize) -> (n: usize)
    requires
        line < view.lines@.len(),
    ensures
        n == heights_spec(*view, width)[line as int],
{
    let source = view.lines[line].text;
    let wrapped = wrap(shown(view.styles, line, source, width), width);
    assert(wrapped@.len() == wrapped@.map_values(|r: crate::ui::wrap::Row| r@).len());
    let cards = cards_rows(view.banked, line, width);
    let chrome = chrome_rows(fitting(view.styles, line, width));
    wrapped.len().saturating_add(cards).saturating_add(chrome)
}

/// The topmost line that still leaves the last one at the bottom of `height` rows.
pub fn bottom_start(view: &Screen, width: usize, height: usize) -> (top: usize)
    ensures
        top == bottom_from(heights_spec(*view, width), height as int, view.lines@.len() as int, 0),
{
    let ghost heights = heights_spec(*view, width);
    let mut rows: usize = 0;
    let mut i = view.lines.len();
    while i > 0
        invariant
            i <= heights.len(),
            heights == heights_spec(*view, width),
            rows < height || (rows == 0 && height == 0),
            bottom_from(heights, height as int, heights.len() as int, 0) == bottom_from(heights, height as int, i as int, rows as int),
        decreases i,
    {
        let h = line_rows(view, i - 1, width);
        if h >= height - rows {
            return if h > height - rows && i < view.lines.len() {
                i
            } else {
                i - 1
            };
        }
        rows = rows + h;
        i = i - 1;
    }
    0
}

/// How many source lines, from `top` down, a frame of `height` rows paints.
pub fn lines_in_frame(view: &Screen, top: usize, width: usize, height: usize) -> (n: usize)
    ensures
        n == fit_from(heights_spec(*view, width), height as int, top as int, 0),
{
    let ghost heights = heights_spec(*view, width);
    let mut rows: usize = 0;
    let mut i: usize = top;
    while i < view.lines.len()
        invariant
            top <= i,
            heights == heights_spec(*view, width),
            rows < height || (rows == 0 && height == 0),
            fit_from(heights, height as int, top as int, 0) == (i - top) + fit_from(heights, height as int, i as int, rows as int),
        decreases view.lines.len() - i,
    {
        let h = line_rows(view, i, width);
        if rows > 0 && h > height - rows {
            return i - top;
        }
        if h >= height - rows {
            return i - top + 1;
        }
        rows = rows + h;
        i = i + 1;
    }
    i - top
}

impl<'a> Screen<'a> {
    /// The gutter cell for a row of line `line`, in that line's own tone.
    pub fn mark(&self, line: usize, numbered: bool) -> (m: Mark)
        ensures
            (m.text@, m.tone) == mark_spec(
                banked_views(self.banked@),
                self.turns@,
                if line < self.lines@.len() { Some(self.lines@[line as int].tone) } else { None },
                line,
                numbered,
            ),
    {
        let tone = if line < self.lines.len() {
            Some(self.lines[line].tone)
        } else {
            None
        };
        mark(self.banked, self.turns, tone, line, numbered)
    }
}

/// Blank rows left under the last line when the view opens, so it never sits flush against
/// the footer.
pub const TAIL: usize = 2;

/// A line's wrapped rows as painted rows, each naming where its characters came from.
pub open spec fn wrapped_painted(line: usize, rows: Seq<(int, Seq<char>)>, linewise: bool) -> Seq<Option<RowView>> {
    rows.map_values(|r: (int, Seq<char>)| Some((line, r.0 as usize, r.1, linewise)))
}

/// The rows line `line` paints at `width`, top to bottom: the border its style hangs above
/// it, one row per wrapped row of what it shows (selecting whole lines when its style says
/// so), the border below, then a row for each row of the cards under it. Borders and cards
/// are chrome: they select nothing.
pub open spec fn line_painted_spec(screen: Screen, line: int, width: usize) -> Seq<Option<RowView>> {
    let styles = screen.styles@;
    let fits = line < styles.len() && style_fits(styles[line]@, width);
    let shown = shown_spec(styles, line as usize, screen.lines@[line].text@, width);
    let above = if fits && styles[line]@.2 is Some { seq![None::<RowView>] } else { Seq::<Option<RowView>>::empty() };
    let below = if fits && styles[line]@.3 is Some { seq![None::<RowView>] } else { Seq::<Option<RowView>>::empty() };
    let cards = cards_from(screen.banked@, line as usize, width as int, screen.banked@.len() as int);
    above + wrapped_painted(line as usize, wrap_spec(shown, width as int), fits && styles[line]@.4) + below
        + Seq::new(cards as nat, |k: int| None::<RowView>)
}

/// What a line paints is exactly as tall as the rows the frame counted for it — borders,
/// wrapped rows and cards alike — so deciding what fits and drawing it agree (short of a
/// count that runs into the top of `usize`).
pub proof fn law_painted_line_matches_its_height(screen: Screen, line: usize, width: usize)
    requires
        line < screen.lines@.len(),
        line_rows_spec(screen, line as int, width) < usize::MAX,
    ensures
        line_painted_spec(screen, line as int, width).len() == heights_spec(screen, width)[line as int],
{
    let styles = screen.styles@;
    let fits = line < styles.len() && style_fits(styles[line as int]@, width);
    let shown = shown_spec(styles, line, screen.lines@[line as int].text@, width);
    let wrapped = wrap_spec(shown, width as int);
    let cards = cards_from(screen.banked@, line, width as int, screen.banked@.len() as int);
    assert(wrapped_painted(line, wrapped, fits && styles[line as int]@.4).len() == wrapped.len());
    assert(cards >= 0) by {
        lemma_cards_nonneg(screen.banked@, line, width as int, screen.banked@.len() as int);
    }
    assert(chrome_spec(styles, line, width) == (if fits && styles[line as int]@.2 is Some { 1int } else { 0 }) + (
    if fits && styles[line as int]@.3 is Some { 1int } else { 0 }));
    assert(heights_spec(screen, width)[line as int] == line_rows_spec(screen, line as int, width) as usize);
}

proof fn lemma_cards_nonneg(banked: Seq<Banked>, line: usize, width: int, k: int)
    ensures
        cards_from(banked, line, width, k) >= 0,
    decreases k,
{
    if 0 < k <= banked.len() {
        lemma_cards_nonneg(banked, line, width, k - 1);
        let b = banked[k - 1];
        if b.to == line {
            assert(drawn_rows_spec(b.number as nat, b.question@, b.quote@, width) >= 0);
        }
    }
}

/// Whether every row that shows text names offsets that fit in `usize`.
pub open spec fn rows_bounded(rows: Seq<Option<RowView>>) -> bool {
    forall|i: int| 0 <= i < rows.len() && (#[trigger] rows[i]) is Some ==> rows[i].unwrap().1 + rows[i].unwrap().2.len() <= usize::MAX
}

/// The rows line `line` paints at `width`.
#[verifier::rlimit(30)]
pub fn line_painted(screen: &Screen, line: usize, width: usize) -> (rows: Vec<Option<PaintedRow>>)
    requires
        line < screen.lines@.len(),
    ensures
        row_views(rows@) == line_painted_spec(*screen, line as int, width),
        rows_bounded(row_views(rows@)),
{
    let style = fitting(screen.styles, line, width);
    let ghost st = screen.styles@;
    let ghost fits = (line as int) < st.len() && style_fits(st[line as int]@, width);
    let (above, below, linewise) = match style {
        Some(s) => (s.above_row().is_some(), s.below_row().is_some(), s.is_linewise()),
        None => (false, false, false),
    };
    assert(above == (fits && st[line as int]@.2 is Some));
    assert(below == (fits && st[line as int]@.3 is Some));
    assert(linewise == (fits && st[line as int]@.4));
    let mut rows: Vec<Option<PaintedRow>> = Vec::new();
    if above {
        rows.push(None);
    }
    let ghost head = row_views(rows@);
    assert(head =~= if above { seq![None::<RowView>] } else { Seq::<Option<RowView>>::empty() });
    let text = shown(screen.styles, line, screen.lines[line].text, width);
    let n = text.unicode_len();
    let wrapped = wrap(text, width);
    let ghost wv = wrapped@.map_values(|r: Row| r@);
    proof {
        lemma_rows_inside(text@, width as int);
    }
    let mut i: usize = 0;
    while i < wrapped.len()
        invariant
            i <= wrapped@.len(),
            wv == wrapped@.map_values(|r: Row| r@),
            wv == wrap_spec(text@, width as int),
            n == text@.len(),
            forall|j: int|
                0 <= j < wv.len() ==> #[trigger] wv[j].0 + wv[j].1.len() <= text@.len() && 0 <= wv[j].0,
            row_views(rows@) == head + wrapped_painted(line, wv.take(i as int), linewise),
            rows_bounded(row_views(rows@)),
        decreases wrapped.len() - i,
    {
        let r = &wrapped[i];
        assert(wv[i as int] == r@);
        let ghost before = row_views(rows@);
        rows.push(Some(PaintedRow { line, start: r.start, text: r.text.clone(), linewise }));
        proof {
            assert(row_views(rows@) =~= before.push(Some((line, r.start, r.text@, linewise))));
            assert(wrapped_painted(line, wv.take(i + 1), linewise) =~= wrapped_painted(line, wv.take(i as int), linewise).push(
                Some((line, r.start, r.text@, linewise)),
            ));
            assert(row_views(rows@) =~= head + wrapped_painted(line, wv.take(i + 1), linewise));
        }
        i = i + 1;
    }
    assert(wv.take(wrapped@.len() as int) =~= wv);
    if below {
        let ghost before = row_views(rows@);
        rows.push(None);
        assert(row_views(rows@) =~= before.push(None::<RowView>));
    }
    let ghost body = row_views(rows@);
    let cards = cards_rows(screen.banked, line, width);
    let mut k: usize = 0;
    while k < cards
        invariant
            k <= cards,
            row_views(rows@) == body + Seq::new(k as nat, |j: int| None::<RowView>),
            rows_bounded(body),
            rows_bounded(row_views(rows@)),
        decreases cards - k,
    {
        let ghost before = row_views(rows@);
        rows.push(None);
        assert(row_views(rows@) =~= before.push(None::<RowView>));
        assert(Seq::new((k + 1) as nat, |j: int| None::<RowView>) =~= Seq::new(k as nat, |j: int| None::<RowView>).push(None));
        k = k + 1;
    }
    rows
}

/// The rows of `k` lines from `top` down, end to end.
pub open spec fn frame_from(screen: Screen, top: int, k: int, width: usize) -> Seq<Option<RowView>>
    decreases k,
{
    if k <= 0 {
        Seq::empty()
    } else {
        frame_from(screen, top, k - 1, width) + line_painted_spec(screen, top + k - 1, width)
    }
}

/// Where a frame of `height` rows opens: at the line it was scrolled to, or — while the
/// picker is opening — wherever leaves the last line `TAIL` rows above the bottom.
pub open spec fn open_top(screen: Screen, width: usize, height: usize) -> usize {
    match screen.scroll {
        Scroll::From(line) => line,
        Scroll::Bottom => bottom_from(
            heights_spec(screen, width),
            if height >= TAIL + 1 { height - TAIL } else { 1 },
            screen.lines@.len() as int,
            0,
        ) as usize,
    }
}

/// What a frame painted into `body` holds: the rows of the lines that fit, cut off at the
/// bottom of the column; how many lines those are; the first one; and the text area.
pub open spec fn frame_spec(screen: Screen, body: Area) -> (Seq<Option<RowView>>, usize, usize, Area) {
    let text = text_area_spec(column_spec(body, screen.measure));
    let height = body.height as usize;
    let width = text.width as usize;
    let top = open_top(screen, width, height);
    let count = fit_from(heights_spec(screen, width), height as int, top as int, 0);
    let rows = frame_from(screen, top as int, count, width);
    (if rows.len() <= height { rows } else { rows.take(height as int) }, count as usize, top, text)
}

/// A frame never paints more lines than there are from where it starts.
proof fn lemma_fit_le(heights: Seq<usize>, height: int, i: int, rows: int)
    ensures
        fit_from(heights, height, i, rows) <= if heights.len() - i >= 0 { heights.len() - i } else { 0 },
        fit_from(heights, height, i, rows) >= 0,
    decreases heights.len() - i,
{
    if 0 <= i < heights.len() {
        lemma_fit_le(heights, height, i + 1, rows + heights[i]);
    }
}

/// Paint the screen into `body`: which rows the frame holds and where each came from.
pub fn paint_frame(screen: &Screen, body: Area) -> (p: Painted)
    requires
        body.x + body.width <= u16::MAX,
        body.y + body.height <= u16::MAX,
    ensures
        (p.rows_view(), p.lines_view(), p.top_view(), p.area_view()) == frame_spec(*screen, body),
{
    let column = content_column(body, screen.measure);
    let text = text_area(column);
    let height = column.height as usize;
    let width = text.width as usize;
    let top = match screen.scroll {
        Scroll::From(line) => line,
        Scroll::Bottom => {
            let room = if height >= TAIL + 1 {
                height - TAIL
            } else {
                1
            };
            bottom_start(screen, width, room)
        },
    };
    let count = lines_in_frame(screen, top, width, height);
    proof {
        lemma_fit_le(heights_spec(*screen, width), height as int, top as int, 0);
    }
    let n = screen.lines.len();
    let mut rows: Vec<Option<PaintedRow>> = Vec::new();
    let mut k: usize = 0;
    while k < count
        invariant
            n == screen.lines@.len(),
            k <= count,
            top + count <= screen.lines@.len() || count == 0,
            row_views(rows@) == frame_from(*screen, top as int, k as int, width),
            rows_bounded(row_views(rows@)),
        decreases count - k,
    {
        let more = line_painted(screen, top + k, width);
        let ghost before = row_views(rows@);
        let mut j: usize = 0;
        while j < more.len()
            invariant
                j <= more@.len(),
                row_views(rows@) == before + row_views(more@).take(j as int),
                rows_bounded(before),
                rows_bounded(row_views(more@)),
                rows_bounded(row_views(rows@)),
            decreases more.len() - j,
        {
            let ghost mid = row_views(rows@);
            let item = match &more[j] {
                Some(r) => Some(PaintedRow { line: r.line, start: r.start, text: r.text.clone(), linewise: r.linewise }),
                None => None,
            };
            proof {
                assert(row_views(more@)[j as int] == match more@[j as int] {
                    Some(r) => Some(r@),
                    None => None::<RowView>,
                });
            }
            rows.push(item);
            proof {
                assert(row_views(rows@) =~= mid.push(row_views(more@)[j as int]));
                assert(row_views(more@).take(j + 1) =~= row_views(more@).take(j as int).push(row_views(more@)[j as int]));
                assert(row_views(rows@) =~= before + row_views(more@).take(j + 1));
            }
            j = j + 1;
        }
        assert(row_views(more@).take(more@.len() as int) =~= row_views(more@));
        k = k + 1;
    }
    let ghost all = row_views(rows@);
    rows.truncate(height);
    assert(row_views(rows@) =~= if all.len() <= height { all } else { all.take(height as int) });
    Painted::new(rows, count, top, text)
}

} // verus!
