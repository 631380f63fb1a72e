//! The reading measure — CSS `max-width` + `margin: 0 auto`, in a terminal.

use vstd::prelude::*;

use crate::text::{push_repeat, repeat};
use crate::ui::width::{str_width, width_of_str};

verus! {

/// Reading measure used when the config file names none, in columns.
pub const DEFAULT_MEASURE: u16 = 100;

/// The narrowest measure the config file may ask for.
pub const MIN_MEASURE: u16 = 40;

/// The widest measure the config file may ask for.
pub const MAX_MEASURE: u16 = 240;

/// Cells at the left of the column that carry bank marks and turn markers.
pub const GUTTER: u16 = 3;

/// A screen rectangle, in terminal cells.
#[derive(Debug, Clone, Copy, PartialEq, Eq, Structural, Default)]
pub struct Area {
    pub x: u16,
    pub y: u16,
    pub width: u16,
    pub height: u16,
}

impl Area {
    pub fn new(x: u16, y: u16, width: u16, height: u16) -> (a: Area)
        ensures
            a == (Area { x, y, width, height }),
    {
        Area { x, y, width, height }
    }

    /// The row just below the area.
    pub fn bottom(&self) -> (b: u16)
        ensures
            b == if self.y + self.height > u16::MAX {
                u16::MAX as int
            } else {
                self.y + self.height
            },
    {
        self.y.saturating_add(self.height)
    }
}

/// The centered column text renders into, capped at `measure`. An odd margin's extra cell
/// goes right, so the column does not jitter on resize.
pub open spec fn column_spec(area: Area, measure: u16) -> Area {
    let width = if area.width <= measure { area.width } else { measure };
    Area { x: (area.x + (area.width - width) / 2) as u16, width, ..area }
}

pub fn content_column(area: Area, measure: u16) -> (col: Area)
    requires
        area.x + area.width <= u16::MAX,
    ensures
        col == column_spec(area, measure),
        col.width <= measure,
        col.x + col.width <= area.x + area.width,
{
    let width = if area.width <= measure { area.width } else { measure };
    Area { x: area.x + (area.width - width) / 2, width, ..area }
}

/// The column with the gutter taken off its left edge: where the text itself goes.
pub open spec fn text_area_spec(column: Area) -> Area {
    if column.width >= GUTTER {
        Area { x: (column.x + GUTTER) as u16, width: (column.width - GUTTER) as u16, ..column }
    } else {
        Area { x: (column.x + column.width) as u16, width: 0, ..column }
    }
}

pub fn text_area(column: Area) -> (a: Area)
    requires
        column.x + column.width <= u16::MAX,
    ensures
        a == text_area_spec(column),
{
    let gutter = if column.width < GUTTER { column.width } else { GUTTER };
    Area { x: column.x + gutter, width: column.width - gutter, ..column }
}

/// Spaces that fill a row of `text` out to `width` columns — none when it is already that
/// wide.
pub open spec fn padding_spec(text: Seq<char>, width: int) -> Seq<char> {
    repeat(' ', if str_width(text) >= width { 0 } else { (width - str_width(text)) as nat })
}

pub fn padding(text: &str, width: usize) -> (out: String)
    ensures
        out@ == padding_spec(text@, width as int),
{
    let used = width_of_str(text);
    let mut out = String::new();
    push_repeat(&mut out, ' ', width.saturating_sub(used));
    assert(out@ =~= padding_spec(text@, width as int));
    out
}

/// Pad to the column so a highlight fills the measure rather than just the glyphs.
pub fn pad(row: String, width: usize) -> (out: String)
    ensures
        out@ == row@ + padding_spec(row@, width as int),
{
    let mut row = row;
    let fill = padding(row.as_str(), width);
    row.append(fill.as_str());
    row
}

} // verus!
