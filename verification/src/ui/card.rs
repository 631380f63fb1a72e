//! The card that shows a banked pair's question under the quote it belongs to: its title,
//! and the geometry of the box drawn around the wrapped question.

use vstd::prelude::*;
use vstd::string::*;

use crate::text::{chars_of, decimal, push_chars, push_decimal, trim, trim_end, trimmed};
use crate::ui::width::{str_width, width_of_str};
use crate::ui::wrap::{law_rows_measure_within, sat, widths_add_up, wrap, wrap_spec, Row};

verus! {

/// Left inset, so a card reads as attached to the quote above it.
pub const INDENT: usize = 2;

/// Characters of the quote a card's title shows before it trails off.
pub const TITLE: usize = 48;

/// The card's title: its number, then as much of the quote as fits before it trails off.
pub open spec fn title_spec(number: nat, quote: Seq<char>) -> Seq<char> {
    let q = trim(quote);
    let head = trim_end(q.take(if q.len() < TITLE { q.len() as int } else { TITLE as int }));
    let trailed = if q.len() > TITLE { seq!['…'] } else { Seq::empty() };
    if head.len() == 0 {
        seq![' '] + decimal(number) + seq!['.', ' ']
    } else {
        seq![' '] + decimal(number) + seq!['.', ' ', '"'] + head + trailed + seq!['"', ' ']
    }
}

pub fn title(number: usize, quote: &str) -> (out: String)
    ensures
        out@ == title_spec(number as nat, quote@),
{
    let q = trimmed(quote);
    let chars = chars_of(q.as_str());
    let take = if chars.len() < TITLE { chars.len() } else { TITLE };
    let mut end = take;
    while end > 0 && crate::text::is_whitespace(chars[end - 1])
        invariant
            end <= take <= chars@.len(),
            crate::text::trail_ws(chars@.take(take as int), take as int) == (take - end)
                + crate::text::trail_ws(chars@.take(take as int), end as int),
        decreases end,
    {
        assert(chars@.take(take as int)[end - 1] == chars@[end - 1]);
        end = end - 1;
    }
    proof {
        let h = chars@.take(take as int);
        if end > 0 {
            assert(h[end - 1] == chars@[end - 1]);
        }
        assert(chars@.subrange(0, end as int) =~= trim_end(h));
    }
    let mut out = String::new();
    out.push(' ');
    push_decimal(&mut out, number);
    out.push('.');
    out.push(' ');
    if end > 0 {
        out.push('"');
        push_chars(&mut out, &chars, 0, end);
        if chars.len() > TITLE {
            out.push('…');
        }
        out.push('"');
        out.push(' ');
    }
    assert(out@ =~= title_spec(number as nat, quote@));
    out
}

/// Columns inside the frame, after the inset and the `│ ` … ` │` it draws.
pub open spec fn text_width_spec(width: int) -> int {
    if width - INDENT - 4 >= 1 {
        width - INDENT - 4
    } else {
        1
    }
}

pub fn text_width(width: usize) -> (w: usize)
    ensures
        w == text_width_spec(width as int),
{
    let w = width.saturating_sub(INDENT).saturating_sub(4);
    if w >= 1 {
        w
    } else {
        1
    }
}

/// Where a card's pieces go: the title, how wide the box is, what it wraps the question to,
/// how many rule characters follow the title on the top border, each wrapped row with the
/// spaces that pad it to the box, and how long the bottom border's rule runs.
#[derive(Debug)]
pub struct CardLayout {
    pub label: String,
    pub box_width: usize,
    pub text_width: usize,
    pub fill: usize,
    pub body: Vec<(String, usize)>,
    pub bottom: usize,
}

/// `a - b`, or none when `b` is the larger.
pub open spec fn less(a: int, b: int) -> int {
    if a >= b {
        a - b
    } else {
        0
    }
}

/// The box's width: the measure less the inset, but never narrower than its title needs.
pub open spec fn box_width_spec(label: Seq<char>, width: int) -> int {
    let need = if str_width(label) + 4 > usize::MAX { usize::MAX as int } else { str_width(label) + 4 };
    if less(width, INDENT as int) >= need {
        less(width, INDENT as int)
    } else {
        need
    }
}

/// The body rows, each padded to the text width.
pub open spec fn body_spec(question: Seq<char>, text_width: int) -> Seq<(Seq<char>, int)> {
    wrap_spec(question, text_width).map_values(|r: (int, Seq<char>)| (r.1, less(text_width, str_width(r.1) as int)))
}

/// Every body row of a card is padded out to the text width, so the box's right border lines
/// up — where the widths of the question's pieces add up — save a row holding one character
/// wider than the box.
pub proof fn law_card_rows_line_up(question: Seq<char>, text_width: int)
    requires
        text_width >= 0,
        widths_add_up(question),
    ensures
        forall|k: int|
            0 <= k < body_spec(question, text_width).len() ==> str_width(
                (#[trigger] body_spec(question, text_width)[k]).0,
            ) + body_spec(question, text_width)[k].1 == text_width || body_spec(question, text_width)[k].0.len() == 1,
{
    law_rows_measure_within(question, text_width);
    let rows = wrap_spec(question, text_width);
    assert forall|k: int| 0 <= k < body_spec(question, text_width).len() implies str_width(
        (#[trigger] body_spec(question, text_width)[k]).0,
    ) + body_spec(question, text_width)[k].1 == text_width || body_spec(question, text_width)[k].0.len() == 1 by {
        assert(body_spec(question, text_width)[k] == (rows[k].1, less(text_width, str_width(rows[k].1) as int)));
    }
}

/// The card for a pair at `width` columns of text area. None without a question: the gutter
/// mark already says everything a bare quote's card would.
pub fn layout(number: usize, question: &str, quote: &str, width: usize) -> (r: Option<CardLayout>)
    ensures
        question@.len() == 0 ==> r is None,
        question@.len() > 0 ==> r is Some && {
            let c = r.unwrap();
            let label = title_spec(number as nat, quote@);
            let bw = box_width_spec(label, width as int);
            let tw = if bw - 4 >= 1 { bw - 4 } else { 1 };
            &&& c.label@ == label
            &&& c.box_width == bw
            &&& c.text_width == tw
            &&& c.fill == less(bw, str_width(label) + 3)
            &&& c.body@.map_values(|b: (String, usize)| (b.0@, b.1 as int)) == body_spec(question@, tw)
            &&& c.bottom == less(bw, 2)
        },
{
    if question.is_empty() {
        return None;
    }
    let label = title(number, quote);
    let lw = width_of_str(label.as_str());
    let need = lw.saturating_add(4);
    let inner = width.saturating_sub(INDENT);
    let box_width = if inner >= need { inner } else { need };
    let tw = if box_width.saturating_sub(4) >= 1 { box_width - 4 } else { 1 };
    let wrapped = wrap(question, tw);
    let ghost rows = wrapped@.map_values(|r: Row| r@);
    let mut body: Vec<(String, usize)> = Vec::new();
    let mut i: usize = 0;
    while i < wrapped.len()
        invariant
            i <= wrapped@.len(),
            rows == wrapped@.map_values(|r: Row| r@),
            rows == wrap_spec(question@, tw as int),
            body@.map_values(|b: (String, usize)| (b.0@, b.1 as int)) == body_spec(question@, tw as int).take(i as int),
        decreases wrapped.len() - i,
    {
        let text = wrapped[i].text.clone();
        let used = width_of_str(text.as_str());
        let gap = tw.saturating_sub(used);
        let ghost before = body@.map_values(|b: (String, usize)| (b.0@, b.1 as int));
        let ghost entry = (text@, gap as int);
        body.push((text, gap));
        assert(body@.map_values(|b: (String, usize)| (b.0@, b.1 as int)) =~= before.push(entry));
        proof {
            assert(rows[i as int] == wrapped@[i as int]@);
            assert(body_spec(question@, tw as int)[i as int] == (rows[i as int].1, less(tw as int, str_width(rows[i as int].1) as int)));
            assert(body@.map_values(|b: (String, usize)| (b.0@, b.1 as int)) =~= body_spec(question@, tw as int).take(i + 1));
        }
        i = i + 1;
    }
    assert(body_spec(question@, tw as int).take(wrapped@.len() as int) =~= body_spec(question@, tw as int));
    let fill = box_width.saturating_sub(lw.saturating_add(3));
    let bottom = box_width.saturating_sub(2);
    Some(CardLayout { label, box_width, text_width: tw, fill, body, bottom })
}

/// Rows the card `layout` draws for a pair — its two borders and the wrapped question — held
/// at the top of `usize`; none for a bare quote.
pub open spec fn drawn_rows_spec(number: nat, question: Seq<char>, quote: Seq<char>, width: int) -> int {
    if question.len() == 0 {
        0
    } else {
        let bw = box_width_spec(title_spec(number, quote), width);
        let tw = if bw - 4 >= 1 { bw - 4 } else { 1 };
        sat(2 + body_spec(question, tw).len() as int)
    }
}

pub fn drawn_rows(number: usize, question: &str, quote: &str, width: usize) -> (n: usize)
    ensures
        n == drawn_rows_spec(number as nat, question@, quote@, width as int),
{
    match layout(number, question, quote, width) {
        Some(card) => {
            assert(card.body@.len() == card.body@.map_values(|b: (String, usize)| (b.0@, b.1 as int)).len());
            card.body.len().saturating_add(2)
        },
        None => 0,
    }
}

/// The box width and the text width `layout` draws a card at, for the card's title.
pub open spec fn text_width_for(number: nat, quote: Seq<char>, width: int) -> int {
    let bw = box_width_spec(title_spec(number, quote), width);
    if bw - 4 >= 1 {
        bw - 4
    } else {
        1
    }
}

/// How many rows a pair's card takes — the two borders plus its wrapped question, wrapped in
/// the box `layout` draws, which a long title can widen past the measure; none at all for a
/// bare quote. Held at the top of `usize`.
pub open spec fn rows_spec(number: nat, question: Seq<char>, quote: Seq<char>, width: int) -> int {
    if trim(question).len() == 0 {
        0
    } else {
        sat(2 + wrap_spec(trim(question), text_width_for(number, quote, width)).len() as int)
    }
}

pub fn rows(number: usize, question: &str, quote: &str, width: usize) -> (n: usize)
    ensures
        n == rows_spec(number as nat, question@, quote@, width as int),
{
    let q = trimmed(question);
    if q.as_str().is_empty() {
        return 0;
    }
    match layout(number, q.as_str(), quote, width) {
        Some(card) => {
            assert(card.body@.len() == card.body@.map_values(|b: (String, usize)| (b.0@, b.1 as int)).len());
            card.body.len().saturating_add(2)
        },
        None => 0,
    }
}

/// What the row count promises is what gets drawn: for a question that is its own trim, the
/// count is the rows `layout` draws for the same pair at the same measure, whatever its title.
pub proof fn law_row_count_matches_layout(question: Seq<char>, quote: Seq<char>, number: nat, width: int)
    requires
        trim(question) == question,
    ensures
        rows_spec(number, question, quote, width) == drawn_rows_spec(number, question, quote, width),
{
}

} // verus!
