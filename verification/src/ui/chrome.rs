//! The question editor that floats over the prose: what it wraps the typed text to, where it
//! sits, how tall it grows, and where the caret goes.

use vstd::prelude::*;
use vstd::string::*;

use crate::markup::Pos;
use crate::text::{chars_of, decimal, push_decimal};
use crate::ui::column::{column_spec, content_column, Area};
use crate::ui::view::Painted;
use crate::ui::width::{str_width, width_of_str};
use crate::ui::wrap::{wrap, wrap_spec, Row};

verus! {

/// Rows the box spends on its own frame, above and below the question.
pub const BORDERS: u16 = 2;

/// The question wrapped to the box, with an empty row waiting whenever the last one is full —
/// so the box grows before the character that needs the space, not after it.
pub open spec fn rows_spec(question: Seq<char>, width: int) -> Seq<Seq<char>> {
    let texts = wrap_spec(question, width).map_values(|r: (int, Seq<char>)| r.1);
    if str_width(texts.last()) >= width {
        texts.push(Seq::empty())
    } else {
        texts
    }
}

pub fn rows(question: &str, width: usize) -> (out: Vec<String>)
    ensures
        out@.map_values(|s: String| s@) == rows_spec(question@, width as int),
{
    let wrapped = wrap(question, width);
    let ghost spec_rows = wrap_spec(question@, width as int);
    let ghost texts = spec_rows.map_values(|r: (int, Seq<char>)| r.1);
    let mut out: Vec<String> = Vec::new();
    let mut i: usize = 0;
    while i < wrapped.len()
        invariant
            i <= wrapped@.len(),
            wrapped@.map_values(|r: Row| r@) == spec_rows,
            texts == spec_rows.map_values(|r: (int, Seq<char>)| r.1),
            out@.map_values(|s: String| s@) == texts.take(i as int),
        decreases wrapped.len() - i,
    {
        let ghost before = out@.map_values(|s: String| s@);
        out.push(wrapped[i].text.clone());
        proof {
            assert(spec_rows[i as int] == wrapped@[i as int]@);
            assert(out@.map_values(|s: String| s@) =~= before.push(texts[i as int]));
            assert(texts.take(i + 1) =~= texts.take(i as int).push(texts[i as int]));
        }
        i = i + 1;
    }
    assert(texts.take(wrapped@.len() as int) =~= texts);
    proof {
        assert(wrapped@.len() > 0) by {
            if question@.len() > 0 {
                assert(spec_rows.len() > 0);
            }
        }
    }
    let last = width_of_str(out[out.len() - 1].as_str());
    if last >= width {
        let ghost before = out@.map_values(|s: String| s@);
        out.push(String::new());
        assert(out@.map_values(|s: String| s@) =~= before.push(Seq::empty()));
    }
    out
}

/// The row just below the quote, flipped above when the box would hang off the bottom,
/// centered when the quote is off screen (no `anchor` row).
pub open spec fn box_y_spec(area: Area, anchor: Option<u16>, height: u16) -> int {
    match anchor {
        None => area.y + (if area.height >= height { area.height - height } else { 0 }) / 2,
        Some(row) => {
            let bottom = if area.y + area.height > u16::MAX { u16::MAX as int } else { area.y + area.height };
            let last = if bottom >= height { bottom - height } else { 0 };
            if row + 1 > last {
                let up = if row >= height { row - height } else { 0 };
                if up >= area.y { up } else { area.y as int }
            } else {
                row + 1
            }
        },
    }
}

pub fn box_y(area: Area, anchor: Option<u16>, height: u16) -> (y: u16)
    requires
        area.y + area.height <= u16::MAX,
    ensures
        y == box_y_spec(area, anchor, height),
{
    match anchor {
        None => area.y + area.height.saturating_sub(height) / 2,
        Some(row) => {
            let last = area.bottom().saturating_sub(height);
            if row >= last {
                let up = row.saturating_sub(height);
                if up >= area.y {
                    up
                } else {
                    area.y
                }
            } else {
                row + 1
            }
        },
    }
}

/// Where the question box goes and what it holds: the measure's column, wrapped inside its
/// frame, as tall as the question (plus the frame) until the pane runs out, placed by
/// [`box_y`] against the row the quote ends on.
pub open spec fn box_spec(area: Area, measure: u16, question: Seq<char>, anchor: Option<u16>) -> (Area, Seq<Seq<char>>) {
    let column = column_spec(area, measure);
    let width = if column.width >= BORDERS + 1 { column.width - BORDERS } else { 1 };
    let typed = rows_spec(question, width);
    let grown = if typed.len() + BORDERS > u16::MAX { u16::MAX as int } else { typed.len() + BORDERS };
    let height = if grown <= area.height { grown } else { area.height as int };
    (Area { y: box_y_spec(area, anchor, height as u16) as u16, height: height as u16, ..column }, typed)
}

pub fn question_box(area: Area, measure: u16, question: &str, anchor: Option<u16>) -> (r: (Area, Vec<String>))
    requires
        area.x + area.width <= u16::MAX,
        area.y + area.height <= u16::MAX,
    ensures
        r.0 == box_spec(area, measure, question@, anchor).0,
        r.1@.map_values(|s: String| s@) == box_spec(area, measure, question@, anchor).1,
{
    let column = content_column(area, measure);
    let w = column.width.saturating_sub(BORDERS);
    let width: usize = if w >= 1 { w as usize } else { 1 };
    let typed = rows(question, width);
    let n: u16 = if typed.len() >= 65535 { 65535 } else { typed.len() as u16 };
    let grown = n.saturating_add(BORDERS);
    let height = if grown <= area.height { grown } else { area.height };
    let y = box_y(area, anchor, height);
    (Area { y, height, ..column }, typed)
}

/// Past the height of the pane the box stops growing and shows its tail — the caret is at
/// the end of the text, which is the row the typist is watching. The first row shown, and the
/// caret's cell: after the last row's text, kept inside the frame.
pub open spec fn caret_spec(typed: Seq<Seq<char>>, inner: Area) -> (int, (int, int)) {
    let from = if typed.len() >= inner.height { typed.len() - inner.height } else { 0 };
    let shown = typed.skip(from);
    let last = if shown.len() == 0 { 0 } else { str_width(shown.last()) as int };
    let last16 = if last > u16::MAX { u16::MAX as int } else { last };
    let limit = if inner.width >= 1 { inner.width - 1 } else { 0 };
    let x = if last16 <= limit { last16 } else { limit };
    let y = if shown.len() >= 1 { shown.len() - 1 } else { 0 };
    (from, (inner.x + x, inner.y + y))
}

pub fn question_caret(typed: &[String], inner: Area) -> (r: (usize, (u16, u16)))
    requires
        inner.x + inner.width <= u16::MAX,
        inner.y + inner.height <= u16::MAX,
    ensures
        r.0 == caret_spec(typed@.map_values(|s: String| s@), inner).0,
        r.1.0 == caret_spec(typed@.map_values(|s: String| s@), inner).1.0,
        r.1.1 == caret_spec(typed@.map_values(|s: String| s@), inner).1.1,
{
    let ghost views = typed@.map_values(|s: String| s@);
    let h = inner.height as usize;
    let from = if typed.len() >= h { typed.len() - h } else { 0 };
    let shown = typed.len() - from;
    let last: usize = if shown == 0 { 0 } else { width_of_str(typed[typed.len() - 1].as_str()) };
    proof {
        if shown > 0 {
            assert(views.skip(from as int).last() == typed@[typed@.len() - 1]@);
        }
    }
    let last16: u16 = if last >= 65535 { 65535 } else { last as u16 };
    let limit = inner.width.saturating_sub(1);
    let x = if last16 <= limit { last16 } else { limit };
    let y: u16 = if shown >= 1 { (shown - 1) as u16 } else { 0 };
    (from, (inner.x + x, inner.y + y))
}

/// The row the question box hangs from: the screen row where the selection ends — or the
/// caret, when a banked pair is reopened with nothing selected — if that is on screen.
pub open spec fn anchor_spec(painted: Painted, selection: Option<(Pos, Pos)>, cursor: Pos) -> Option<u16> {
    let at = match selection {
        Some(range) => range.1,
        None => cursor,
    };
    match crate::ui::view::caret_spec(painted.rows_view(), painted.area_view(), at) {
        Some(cell) => Some(cell.1),
        None => None,
    }
}

pub fn anchor_row(painted: &Painted, selection: Option<(Pos, Pos)>, cursor: Pos) -> (r: Option<u16>)
    ensures
        r == anchor_spec(*painted, selection, cursor),
{
    let at = match selection {
        Some(range) => range.1,
        None => cursor,
    };
    match painted.caret(at) {
        Some(cell) => Some(cell.1),
        None => None,
    }
}

/// What a piece of the footer is, so the paint layer knows how to ink it.
#[derive(Debug, Clone, Copy, PartialEq, Eq, Structural)]
pub enum Piece {
    Bracket,
    Cap,
    Hint,
    Count,
    Status,
}

/// The footer's key caps and the hint each one carries, left to right: the box's own two
/// while a question is being typed, the browsing keys otherwise.
pub open spec fn footer_keys(asking: bool) -> Seq<(Seq<char>, Seq<char>)> {
    if asking {
        seq![("enter"@, "bank"@), ("esc"@, "back"@)]
    } else {
        seq![
            ("drag"@, "select"@),
            ("v V"@, "char line"@),
            ("c"@, "ask"@),
            ("e"@, "edit"@),
            ("d"@, "del"@),
            ("s"@, "send"@),
            ("[ ]"@, "turn"@),
            ("q"@, "quit"@),
        ]
    }
}

/// A cap that is a bracket itself goes unwrapped: `[[ ]]` would read as noise.
pub open spec fn bare(cap: Seq<char>) -> bool {
    cap.contains('[') || cap.contains(']')
}

/// One key's pieces: the cap in brackets, then its hint and a gap.
pub open spec fn key_pieces(cap: Seq<char>, hint: Seq<char>) -> Seq<(Piece, Seq<char>)> {
    seq![
        (Piece::Bracket, if bare(cap) { ""@ } else { "["@ }),
        (Piece::Cap, cap),
        (Piece::Bracket, if bare(cap) { " "@ } else { "] "@ }),
        (Piece::Hint, hint + "   "@),
    ]
}

pub open spec fn keys_pieces(keys: Seq<(Seq<char>, Seq<char>)>) -> Seq<(Piece, Seq<char>)>
    decreases keys.len(),
{
    if keys.len() == 0 {
        Seq::empty()
    } else {
        keys_pieces(keys.drop_last()) + key_pieces(keys.last().0, keys.last().1)
    }
}

/// The footer, left to right: the key hints, how many pairs are banked (when any are), and
/// the status line.
pub open spec fn footer_spec(asking: bool, banked: nat, status: Seq<char>) -> Seq<(Piece, Seq<char>)> {
    keys_pieces(footer_keys(asking)) + seq![
        (Piece::Count, if banked == 0 { Seq::empty() } else { decimal(banked) + " banked   "@ }),
        (Piece::Status, status),
    ]
}

pub open spec fn piece_views(pieces: Seq<(Piece, String)>) -> Seq<(Piece, Seq<char>)> {
    pieces.map_values(|p: (Piece, String)| (p.0, p.1@))
}

fn has_char(s: &[char], c: char) -> (b: bool)
    ensures
        b == s@.contains(c),
{
    let mut i: usize = 0;
    while i < s.len()
        invariant
            i <= s@.len(),
            forall|k: int| 0 <= k < i ==> s@[k] != c,
        decreases s.len() - i,
    {
        if s[i] == c {
            return true;
        }
        i = i + 1;
    }
    false
}

fn push_piece(out: &mut Vec<(Piece, String)>, piece: Piece, text: &str)
    ensures
        piece_views(final(out)@) == piece_views(old(out)@).push((piece, text@)),
{
    let ghost before = piece_views(out@);
    out.push((piece, text.to_owned()));
    assert(piece_views(out@) =~= before.push((piece, text@)));
}

/// The footer's pieces, each tagged with what it is.
pub fn footer(asking: bool, banked: usize, status: &str) -> (out: Vec<(Piece, String)>)
    ensures
        piece_views(out@) == footer_spec(asking, banked as nat, status@),
{
    let keys: Vec<(&str, &str)> = if asking {
        vec![("enter", "bank"), ("esc", "back")]
    } else {
        vec![
            ("drag", "select"),
            ("v V", "char line"),
            ("c", "ask"),
            ("e", "edit"),
            ("d", "del"),
            ("s", "send"),
            ("[ ]", "turn"),
            ("q", "quit"),
        ]
    };
    let ghost want = footer_keys(asking);
    assert(keys@.map_values(|k: (&str, &str)| (k.0@, k.1@)) =~= want);
    let mut out: Vec<(Piece, String)> = Vec::new();
    let mut i: usize = 0;
    while i < keys.len()
        invariant
            i <= keys@.len(),
            keys@.map_values(|k: (&str, &str)| (k.0@, k.1@)) == want,
            piece_views(out@) == keys_pieces(want.take(i as int)),
        decreases keys.len() - i,
    {
        let (cap, hint) = keys[i];
        assert(want[i as int] == (cap@, hint@));
        let chars = chars_of(cap);
        let is_bare = has_char(&chars, '[') || has_char(&chars, ']');
        assert(is_bare == bare(cap@));
        let ghost start = piece_views(out@);
        push_piece(&mut out, Piece::Bracket, if is_bare { "" } else { "[" });
        push_piece(&mut out, Piece::Cap, cap);
        push_piece(&mut out, Piece::Bracket, if is_bare { " " } else { "] " });
        let mut gapped = hint.to_owned();
        gapped.append("   ");
        let ghost before = piece_views(out@);
        out.push((Piece::Hint, gapped));
        proof {
            assert(piece_views(out@) =~= before.push((Piece::Hint, hint@ + "   "@)));
            assert(piece_views(out@) =~= start + key_pieces(cap@, hint@));
            assert(want.take(i + 1).drop_last() =~= want.take(i as int));
            assert(keys_pieces(want.take(i + 1)) =~= keys_pieces(want.take(i as int)) + key_pieces(cap@, hint@));
        }
        i = i + 1;
    }
    assert(want.take(keys@.len() as int) =~= want);
    let mut count = String::new();
    if banked > 0 {
        push_decimal(&mut count, banked);
        count.append(" banked   ");
    }
    let ghost before = piece_views(out@);
    out.push((Piece::Count, count));
    push_piece(&mut out, Piece::Status, status);
    proof {
        reveal_strlit("");
        assert(piece_views(out@) =~= before + seq![
            (Piece::Count, if banked == 0 { Seq::empty() } else { decimal(banked as nat) + " banked   "@ }),
            (Piece::Status, status@),
        ]);
    }
    out
}

} // verus!
