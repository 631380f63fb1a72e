//! Picker state — terminal-free: where the caret is, what is selected, the question being
//! typed, the bank of pairs, and what each key or click does to them.

use vstd::prelude::*;
use vstd::string::*;

use crate::bank::{Bank, Pair, PairView};
use crate::export::{batch, batch_spec, block, block_spec};
use crate::herdr::{PaneId, Status};
use crate::keymap::Command;
use crate::markup::{pos_le, Pos};
use crate::text::{chars_of, decimal, push_decimal, string_of, trim, trim_bounds, trimmed};
use crate::transcript::history::{clamp_spec, slice_spec, LineView};
use crate::transcript::session::SessionId;
use crate::transcript::Transcript;
use crate::ui::view::{Banked, Painted, Scroll};

verus! {

/// Whether the question box is up.
#[derive(Debug, Clone, Copy, PartialEq, Eq, Structural)]
pub enum Mode {
    Browse,
    /// Typing a question; `editing` is the bank index when reopening a banked pair.
    Ask { editing: Option<usize> },
}

impl Default for Mode {
    fn default() -> (m: Self)
        ensures
            m == Mode::Browse,
    {
        Mode::Browse
    }
}

/// How much of a line a selection takes: exactly the characters crossed, or all of them.
#[derive(Debug, Clone, Copy, PartialEq, Eq, Structural)]
pub enum Grain {
    Char,
    Line,
}

impl Default for Grain {
    fn default() -> (g: Self)
        ensures
            g == Grain::Char,
    {
        Grain::Char
    }
}

#[derive(Debug)]
pub struct App {
    /// Pane of the agent that opened us; `None` when launched standalone.
    pub agent_pane: Option<PaneId>,
    /// Session the buffer came from; a parked batch only restores into the same one.
    pub session: Option<SessionId>,
    pub transcript: Transcript,
    /// The lines the paint layer renders rather than styles — a table's grid. A range that
    /// touches one is always linewise: the grid pads its cells, so a column there names no
    /// source character.
    pub linewise: Vec<bool>,
    /// Reading measure, in columns.
    pub measure: u16,
    /// Character the caret sits on.
    pub cursor: Pos,
    /// First source line painted. Meaningless until [`App::settle`] runs.
    pub scroll: usize,
    /// True until the first frame has resolved where the picker opens.
    pub opening: bool,
    /// Where the live selection started; `None` when nothing is selected.
    pub anchor: Option<Pos>,
    pub grain: Grain,
    /// Pairs finished and waiting for `S`.
    pub bank: Bank,
    pub mode: Mode,
    pub question: String,
    /// What the last frame put on screen — drives scrolling and mouse hit testing.
    pub painted: Painted,
    pub status: String,
    pub should_quit: bool,
}

/// The start of `line`'s last character boundary: just past its end.
pub open spec fn line_end_spec(lines: Seq<LineView>, line: usize) -> Pos {
    Pos { line, col: if line < lines.len() { lines[line as int].0.len() as usize } else { 0 } }
}

/// Whether either end of a range sits on a line the paint layer rendered.
pub open spec fn rendered(linewise: Seq<bool>, from: usize, to: usize) -> bool {
    (from < linewise.len() && linewise[from as int]) || (to < linewise.len() && linewise[to as int])
}

/// The range that would be quoted right now, in reading order: from the anchor (or the caret
/// alone) to the caret — whole lines when the grain says so or a rendered line is touched.
pub open spec fn range_spec(app: App) -> (Pos, Pos) {
    let anchor = match app.anchor {
        Some(a) => a,
        None => app.cursor,
    };
    let from = if pos_le(anchor, app.cursor) { anchor } else { app.cursor };
    let to = if pos_le(anchor, app.cursor) { app.cursor } else { anchor };
    if app.grain == Grain::Char && !rendered(app.linewise@, from.line, to.line) {
        (from, to)
    } else {
        (Pos { line: from.line, col: 0 }, line_end_spec(app.transcript.lines_view(), to.line))
    }
}

impl App {
    /// A picker over `transcript`, its caret on the start of the last line, opening at the
    /// bottom once the first frame is measured.
    pub fn new(
        agent_pane: Option<PaneId>,
        session: Option<SessionId>,
        transcript: Transcript,
        linewise: Vec<bool>,
        measure: u16,
        status: String,
    ) -> (app: App)
        ensures
            app.agent_pane == agent_pane,
            app.session == session,
            app.transcript == transcript,
            app.linewise == linewise,
            app.measure == measure,
            app.cursor == (Pos {
                line: if transcript.lines_view().len() >= 1 { (transcript.lines_view().len() - 1) as usize } else { 0 },
                col: 0,
            }),
            app.scroll == 0,
            app.opening,
            app.anchor is None,
            app.grain == Grain::Char,
            app.bank@.len() == 0,
            app.mode == Mode::Browse,
            app.question@.len() == 0,
            app.status == status,
            app.painted.rows_view().len() == 0,
            app.painted.lines_view() == 0,
            app.painted.top_view() == 0,
            app.painted.area_view() == (crate::ui::column::Area { x: 0, y: 0, width: 0, height: 0 }),
            !app.should_quit,
    {
        let n = transcript.lines().len();
        let last = if n >= 1 { n - 1 } else { 0 };
        App {
            agent_pane,
            session,
            transcript,
            linewise,
            measure,
            cursor: Pos::line_start(last),
            scroll: 0,
            opening: true,
            anchor: None,
            grain: Grain::Char,
            bank: Bank::default(),
            mode: Mode::Browse,
            question: String::new(),
            painted: Painted::empty(),
            status,
            should_quit: false,
        }
    }

    /// Adopt the scroll the first frame worked out. Where the newest line sits depends on how
    /// every line above it wraps, so only the paint layer can say.
    pub fn settle(&mut self)
        ensures
            old(self).opening ==> *final(self) == (App { opening: false, scroll: old(self).painted.top_view(), ..*old(self) }),
            !old(self).opening ==> *final(self) == *old(self),
    {
        if !self.opening {
            return;
        }
        self.opening = false;
        self.scroll = self.painted.top();
    }

    /// Whether either end of a range sits on a rendered line.
    fn spans_rendered(&self, from: usize, to: usize) -> (b: bool)
        ensures
            b == rendered(self.linewise@, from, to),
    {
        (from < self.linewise.len() && self.linewise[from]) || (to < self.linewise.len()
            && self.linewise[to])
    }

    /// The range that would be quoted right now, in reading order.
    pub fn range(&self) -> (r: (Pos, Pos))
        ensures
            r == range_spec(*self),
    {
        let anchor = match self.anchor {
            Some(a) => a,
            None => self.cursor,
        };
        let before = anchor.le(&self.cursor);
        let from = if before { anchor } else { self.cursor };
        let to = if before { self.cursor } else { anchor };
        if self.grain == Grain::Char && !self.spans_rendered(from.line, to.line) {
            return (from, to);
        }
        (Pos::line_start(from.line), self.transcript.line_end(to.line))
    }

    /// The live selection, when there is one.
    pub fn selection(&self) -> (r: Option<(Pos, Pos)>)
        ensures
            r == match self.anchor {
                Some(_) => Some(range_spec(*self)),
                None => None::<(Pos, Pos)>,
            },
    {
        match self.anchor {
            Some(_) => Some(self.range()),
            None => None,
        }
    }

    /// Anchor a selection at the caret, or drop the one that is live. Asking for the other
    /// grain keeps the range and re-cuts it, rather than starting over.
    pub fn toggle_range(&mut self, grain: Grain)
        ensures
            *final(self) == (App {
                grain,
                anchor: toggled(old(self).anchor, old(self).grain, old(self).cursor, grain),
                ..*old(self)
            }),
    {
        if self.anchor.is_none() {
            self.anchor = Some(self.cursor);
        } else if self.grain == grain {
            self.anchor = None;
        }
        self.grain = grain;
    }

    pub fn clear_range(&mut self)
        ensures
            *final(self) == (App { anchor: None, grain: Grain::Char, ..*old(self) }),
    {
        self.anchor = None;
        self.grain = Grain::Char;
    }

    pub fn asking(&self) -> (b: bool)
        ensures
            b == (self.mode is Ask),
    {
        match self.mode {
            Mode::Ask { .. } => true,
            Mode::Browse => false,
        }
    }

    /// Open the question box over the live selection. Without one there is nothing to quote —
    /// `e` is what reopens a banked pair.
    pub fn ask(&mut self)
        ensures
            after_ask(*old(self), *final(self)),
    {
        let (from, to) = self.range();
        if self.anchor.is_none() || self.transcript.slice(from, to).len() == 0 {
            self.status = "nothing selected".to_owned();
            return;
        }
        self.mode = Mode::Ask { editing: None };
        self.question = String::new();
    }

    pub fn cancel_ask(&mut self)
        ensures
            *final(self) == (App { mode: Mode::Browse, ..*old(self) }),
    {
        self.mode = Mode::Browse;
    }

    pub fn type_char(&mut self, c: char)
        ensures
            *final(self) == (App { question: final(self).question, ..*old(self) }),
            final(self).question@ == old(self).question@.push(c),
    {
        self.question.push(c);
    }

    /// Drop the last character typed, if any.
    pub fn backspace(&mut self)
        ensures
            after_backspace(*old(self), *final(self)),
    {
        let chars = chars_of(self.question.as_str());
        if chars.len() > 0 {
            let kept = crate::transcript::marks::slice_range(&chars, 0, chars.len() - 1);
            self.question = string_of(&kept);
            assert(self.question@ =~= old(self).question@.drop_last());
        }
    }

    /// Empty the question box.
    pub fn clear_question(&mut self)
        ensures
            *final(self) == (App { question: final(self).question, ..*old(self) }),
            final(self).question@.len() == 0,
    {
        self.question = String::new();
    }
}


/// The first line of a quote, or nothing when it quotes nothing.
pub open spec fn first_line(quoted: Seq<Seq<char>>) -> Seq<char> {
    if quoted.len() > 0 {
        quoted[0]
    } else {
        Seq::empty()
    }
}

/// `s` with its leading and trailing whitespace dropped, borrowed from it.
fn trim_str(s: &str) -> (out: &str)
    ensures
        out@ == trim(s@),
{
    let chars = chars_of(s);
    let (a, b) = trim_bounds(&chars, 0, chars.len());
    assert(chars@.subrange(0, chars@.len() as int) =~= chars@);
    s.substring_char(a, b)
}

impl App {
    /// The banked pairs as the paint layer sees them: numbered from one in bank order, the
    /// lines each covers, its trimmed question, and the first line of its quote for the
    /// card's title.
    pub fn banked(&self) -> (out: Vec<Banked<'_>>)
        ensures
            out@.len() == self.bank@.len(),
            forall|i: int|
                #![trigger out@[i]]
                0 <= i < out@.len() ==> {
                    let p = self.bank@[i];
                    &&& out@[i].number == i + 1
                    &&& out@[i].from == p.0.line
                    &&& out@[i].to == p.1.line
                    &&& out@[i].question@ == trim(p.2)
                    &&& out@[i].quote@ == first_line(slice_spec(self.transcript.lines_view(), p.0, p.1))
                },
    {
        let pairs = self.bank.iter();
        let mut out: Vec<Banked<'_>> = Vec::new();
        let mut i: usize = 0;
        while i < pairs.len()
            invariant
                i <= pairs@.len(),
                pairs@.map_values(|p: Pair| p@) == self.bank@,
                out@.len() == i,
                forall|k: int|
                    #![trigger out@[k]]
                    0 <= k < i ==> {
                        let p = self.bank@[k];
                        &&& out@[k].number == k + 1
                        &&& out@[k].from == p.0.line
                        &&& out@[k].to == p.1.line
                        &&& out@[k].question@ == trim(p.2)
                        &&& out@[k].quote@ == first_line(slice_spec(self.transcript.lines_view(), p.0, p.1))
                    },
            decreases pairs.len() - i,
        {
            let pair = &pairs[i];
            assert(self.bank@[i as int] == pair@);
            let quoted = self.transcript.slice(pair.from, pair.to);
            let quote: &str = if quoted.len() > 0 {
                quoted[0]
            } else {
                ""
            };
            proof {
                reveal_strlit("");
                let views = quoted@.map_values(|s: &str| s@);
                if quoted@.len() > 0 {
                    assert(views[0] == quoted@[0]@);
                }
            }
            out.push(Banked {
                number: i + 1,
                from: pair.from.line,
                to: pair.to.line,
                question: trim_str(pair.question.as_str()),
                quote,
            });
            i = i + 1;
        }
        out
    }

    /// Where the next frame opens: at the bottom while the picker is opening, else where it
    /// was scrolled to.
    pub fn scroll_mode(&self) -> (s: Scroll)
        ensures
            s == if self.opening { Scroll::Bottom } else { Scroll::From(self.scroll) },
    {
        if self.opening {
            Scroll::Bottom
        } else {
            Scroll::From(self.scroll)
        }
    }

    /// The question being typed, while the box is up.
    pub fn typed(&self) -> (q: Option<&str>)
        ensures
            match q {
                Some(t) => self.mode is Ask && t@ == self.question@,
                None => !(self.mode is Ask),
            },
    {
        if self.asking() {
            Some(self.question.as_str())
        } else {
            None
        }
    }
}

/// `n + 1`, held at the top of the range.
pub open spec fn succ(n: usize) -> nat {
    if n < usize::MAX { (n + 1) as nat } else { usize::MAX as nat }
}

/// What the status line says once a pair is saved.
pub open spec fn saved_status(index: usize, banked: nat) -> Seq<char> {
    "pair "@ + decimal(succ(index)) + " saved — "@ + decimal(banked) + " banked, S sends"@
}

/// What the status line says once a pair is deleted.
pub open spec fn deleted_status(index: usize, left: nat) -> Seq<char> {
    "pair "@ + decimal(succ(index)) + " deleted — "@ + decimal(left) + " left"@
}

/// The question a pair goes out with: its trimmed text, or none when that is empty.
pub open spec fn asked(question: Seq<char>) -> Option<Seq<char>> {
    if trim(question).len() == 0 {
        None
    } else {
        Some(trim(question))
    }
}

/// The whole batch as one markdown blob: each pair's quote and question, in bank order.
pub open spec fn compose_spec(lines: Seq<LineView>, pairs: Seq<PairView>) -> Seq<char> {
    batch_spec(pairs.map_values(|p: PairView| block_spec(slice_spec(lines, p.0, p.1), asked(p.2))))
}

/// A string holding `a`, the decimal digits of `n`, then `b`.
fn spliced(out: &mut String, a: &str, n: usize, b: &str)
    ensures
        final(out)@ == old(out)@ + a@ + decimal(n as nat) + b@,
{
    out.append(a);
    push_decimal(out, n);
    out.append(b);
}

impl App {
    /// Save the typed question — as a new pair over the live selection, or onto the banked
    /// pair `e` reopened — and go back to browsing.
    pub fn bank_pair(&mut self)
        ensures
            after_bank_pair(*old(self), *final(self)),
    {
        let editing = match self.mode {
            Mode::Ask { editing } => editing,
            Mode::Browse => {
                return;
            },
        };
        let question = trimmed(self.question.as_str());
        let index = match editing {
            Some(index) => {
                self.bank.set_question(index, question);
                index
            },
            None => {
                let (from, to) = self.range();
                if self.transcript.slice(from, to).len() == 0 {
                    self.status = "nothing selected".to_owned();
                    return;
                }
                self.bank.add(Pair { from, to, question })
            },
        };
        self.clear_range();
        self.mode = Mode::Browse;
        let mut status = String::new();
        let number = index.saturating_add(1);
        spliced(&mut status, "pair ", number, " saved — ");
        spliced(&mut status, "", self.bank.len(), " banked, S sends");
        proof {
            reveal_strlit("");
            assert(status@ =~= saved_status(index, self.bank@.len()));
        }
        self.status = status;
    }

    /// Reopen the question of the banked pair under the caret.
    pub fn edit_pair(&mut self)
        ensures
            after_edit_pair(*old(self), *final(self)),
    {
        let Some(index) = self.bank.at_line(self.cursor.line) else {
            self.status = "no banked pair here".to_owned();
            return;
        };
        proof {
            crate::bank::lemma_first_covering(self.bank@, self.cursor.line as int, 0);
        }
        let question = match self.bank.get(index) {
            Some(pair) => pair.question.clone(),
            None => String::new(),
        };
        self.question = question;
        self.mode = Mode::Ask { editing: Some(index) };
    }

    /// Drop the banked pair under the caret. The ones after it shift down and renumber.
    pub fn delete_pair(&mut self)
        ensures
            after_delete_pair(*old(self), *final(self)),
    {
        let Some(index) = self.bank.at_line(self.cursor.line) else {
            self.status = "no banked pair here".to_owned();
            return;
        };
        proof {
            crate::bank::lemma_first_covering(self.bank@, self.cursor.line as int, 0);
        }
        self.bank.remove(index);
        let mut status = String::new();
        spliced(&mut status, "pair ", index.saturating_add(1), " deleted — ");
        spliced(&mut status, "", self.bank.len(), " left");
        proof {
            reveal_strlit("");
            assert(status@ =~= deleted_status(index, self.bank@.len()));
        }
        self.status = status;
    }

    /// Bank the live selection as a bare quote, so `S` carries what is on screen too.
    pub fn bank_selection(&mut self)
        ensures
            ({
                let r = range_spec(*old(self));
                if old(self).anchor is None || slice_spec(old(self).transcript.lines_view(), r.0, r.1).len() == 0 {
                    *final(self) == *old(self)
                } else {
                    &&& *final(self) == (App { bank: final(self).bank, anchor: None, grain: Grain::Char, ..*old(self) })
                    &&& final(self).bank@ == old(self).bank@.push((r.0, r.1, Seq::<char>::empty()))
                }
            }),
    {
        if self.anchor.is_none() {
            return;
        }
        let (from, to) = self.range();
        if self.transcript.slice(from, to).len() == 0 {
            return;
        }
        self.bank.add(Pair { from, to, question: String::new() });
        self.anchor = None;
        self.grain = Grain::Char;
    }

    /// The whole batch as one markdown blob, pairs separated by a rule.
    pub fn compose(&self) -> (out: String)
        ensures
            out@ == compose_spec(self.transcript.lines_view(), self.bank@),
    {
        let pairs = self.bank.iter();
        let ghost views = self.bank@;
        let ghost want = views.map_values(|p: PairView| block_spec(slice_spec(self.transcript.lines_view(), p.0, p.1), asked(p.2)));
        let mut blocks: Vec<String> = Vec::new();
        let mut i: usize = 0;
        while i < pairs.len()
            invariant
                i <= pairs@.len(),
                pairs@.map_values(|p: Pair| p@) == views,
                want == views.map_values(|p: PairView| block_spec(slice_spec(self.transcript.lines_view(), p.0, p.1), asked(p.2))),
                blocks@.map_values(|b: String| b@) == want.take(i as int),
            decreases pairs.len() - i,
        {
            let pair = &pairs[i];
            assert(views[i as int] == pair@);
            let quoted = self.transcript.slice(pair.from, pair.to);
            let question = trimmed(pair.question.as_str());
            let b = if question.as_str().is_empty() {
                block(quoted.as_slice(), None)
            } else {
                block(quoted.as_slice(), Some(question.as_str()))
            };
            proof {
                assert(crate::export::views(quoted@) == quoted@.map_values(|s: &str| s@));
                assert(crate::export::views(quoted@) =~= quoted@.map_values(|s: &str| s@));
            }
            let ghost before = blocks@.map_values(|b: String| b@);
            blocks.push(b);
            assert(blocks@.map_values(|b: String| b@) =~= before.push(want[i as int]));
            assert(want.take(i + 1) =~= want.take(i as int).push(want[i as int]));
            i = i + 1;
        }
        assert(want.take(pairs@.len() as int) =~= want);
        batch(&blocks)
    }
}


/// `a` moved by `d`, held inside the range of `usize`.
pub open spec fn add_signed(a: usize, d: isize) -> usize {
    if a + d < 0 {
        0
    } else if a + d > usize::MAX {
        usize::MAX
    } else {
        (a + d) as usize
    }
}

/// `a * b`, held inside the range of `isize`.
pub open spec fn mul_held(a: isize, b: isize) -> isize {
    if a * b < isize::MIN {
        isize::MIN
    } else if a * b > isize::MAX {
        isize::MAX
    } else {
        (a * b) as isize
    }
}

fn add_signed_exec(a: usize, d: isize) -> (r: usize)
    ensures
        r == add_signed(a, d),
{
    if d >= 0 {
        a.saturating_add(d as usize)
    } else {
        let m = ((-(d + 1)) as usize) + 1;
        a.saturating_sub(m)
    }
}

fn mul_held_exec(a: isize, b: isize) -> (r: isize)
    ensures
        r == mul_held(a, b),
{
    let x = a as i128;
    let y = b as i128;
    assert(-0x8000_0000_0000_0000 <= x <= 0x7fff_ffff_ffff_ffff);
    assert(-0x8000_0000_0000_0000 <= y <= 0x7fff_ffff_ffff_ffff);
    assert(-0x4000_0000_0000_0000_0000_0000_0000_0000 <= x * y <= 0x4000_0000_0000_0000_0000_0000_0000_0000) by (nonlinear_arith)
        requires
            -0x8000_0000_0000_0000 <= x <= 0x7fff_ffff_ffff_ffff,
            -0x8000_0000_0000_0000 <= y <= 0x7fff_ffff_ffff_ffff,
    ;
    let wide = x * y;
    if wide < (isize::MIN as i128) {
        isize::MIN
    } else if wide > (isize::MAX as i128) {
        isize::MAX
    } else {
        wide as isize
    }
}

/// How many source lines a page holds — at least one.
pub open spec fn page_of(p: Painted) -> usize {
    if p.lines_view() >= 1 { p.lines_view() } else { 1 }
}

/// The scroll that keeps `line` on screen, moving as little as it can.
pub open spec fn follow(scroll: usize, line: usize, page: usize) -> usize {
    if line < scroll {
        line
    } else if line - scroll >= page {
        (line - page + 1) as usize
    } else {
        scroll
    }
}

/// What `ask` leaves: the question box opened empty over a live selection that quotes
/// something, or the status saying there is nothing selected.
pub open spec fn after_ask(before: App, after: App) -> bool {
    let r = range_spec(before);
    if before.anchor is None || slice_spec(before.transcript.lines_view(), r.0, r.1).len() == 0 {
        &&& after == (App { status: after.status, ..before })
        &&& after.status@ == "nothing selected"@
    } else {
        &&& after == (App {
            mode: Mode::Ask { editing: None },
            question: after.question,
            ..before
        })
        &&& after.question@.len() == 0
    }
}

/// What `backspace` leaves: the question less its last character, if it has one.
pub open spec fn after_backspace(before: App, after: App) -> bool {
    &&& after == (App { question: after.question, ..before })
    &&& before.question@.len() == 0 ==> after.question@ == before.question@
    &&& before.question@.len() > 0 ==> after.question@ == before.question@.drop_last()
}

/// What `bank_pair` leaves: the typed question saved onto the pair being edited, or as a new
/// pair over the live selection, and the picker back to browsing — or, with nothing to quote,
/// the status saying so.
pub open spec fn after_bank_pair(before: App, after: App) -> bool {
    match before.mode {
        Mode::Browse => after == before,
        Mode::Ask { editing: Some(index) } => {
            &&& after == (App {
                bank: after.bank,
                mode: Mode::Browse,
                anchor: None,
                grain: Grain::Char,
                status: after.status,
                ..before
            })
            &&& after.bank@ == if index < before.bank@.len() {
                before.bank@.update(
                    index as int,
                    (before.bank@[index as int].0, before.bank@[index as int].1, trim(before.question@)),
                )
            } else {
                before.bank@
            }
            &&& after.status@ == saved_status(index, after.bank@.len())
        },
        Mode::Ask { editing: None } => {
            let r = range_spec(before);
            if slice_spec(before.transcript.lines_view(), r.0, r.1).len() == 0 {
                &&& after == (App { status: after.status, ..before })
                &&& after.status@ == "nothing selected"@
            } else {
                &&& after == (App {
                    bank: after.bank,
                    mode: Mode::Browse,
                    anchor: None,
                    grain: Grain::Char,
                    status: after.status,
                    ..before
                })
                &&& after.bank@ == before.bank@.push((r.0, r.1, trim(before.question@)))
                &&& after.status@ == saved_status(before.bank@.len() as usize, after.bank@.len())
            }
        },
    }
}

/// What `edit_pair` leaves: the question box reopened over the banked pair under the caret,
/// holding its question — or the status saying there is none.
pub open spec fn after_edit_pair(before: App, after: App) -> bool {
    match crate::bank::first_covering(before.bank@, before.cursor.line as int, 0) {
        None => after == (App { status: after.status, ..before })
            && after.status@ == "no banked pair here"@,
        Some(index) => after == (App {
            mode: Mode::Ask { editing: Some(index as usize) },
            question: after.question,
            ..before
        }) && after.question@ == before.bank@[index].2,
    }
}

/// What `delete_pair` leaves: the banked pair under the caret dropped and the status saying so
/// — or saying there is none.
pub open spec fn after_delete_pair(before: App, after: App) -> bool {
    match crate::bank::first_covering(before.bank@, before.cursor.line as int, 0) {
        None => after == (App { status: after.status, ..before })
            && after.status@ == "no banked pair here"@,
        Some(index) => {
            &&& after == (App { bank: after.bank, status: after.status, ..before })
            &&& after.bank@ == before.bank@.remove(index)
            &&& after.status@ == deleted_status(index as usize, after.bank@.len())
        },
    }
}

/// What `page_by` leaves: the caret moved by whole pages, a page being what the last frame fit.
pub open spec fn after_page(before: App, after: App, pages: isize) -> bool {
    let page = page_of(before.painted);
    let step = if page <= isize::MAX { page as isize } else { 1isize };
    moved_to(before, after, Pos {
        line: add_signed(before.cursor.line, mul_held(pages, step)),
        ..before.cursor
    })
}

/// What `next_turn` leaves: the caret on the first line of the next turn, when there is one.
pub open spec fn after_next_turn(before: App, after: App) -> bool {
    match crate::transcript::history::next_start(before.transcript.starts_view(), 0, before.cursor.line) {
        Some(line) => moved_to(before, after, Pos { line, col: 0 }),
        None => after == before,
    }
}

/// What `prev_turn` leaves: the caret on the first line of the turn before, when there is one.
pub open spec fn after_prev_turn(before: App, after: App) -> bool {
    match crate::transcript::history::prev_start(
        before.transcript.starts_view(),
        before.transcript.starts_view().len() as int,
        before.cursor.line,
    ) {
        Some(line) => moved_to(before, after, Pos { line, col: 0 }),
        None => after == before,
    }
}

/// What `scroll_by` leaves: the view moved, held between the first and the last line, and the
/// caret where it was.
pub open spec fn after_scroll(before: App, after: App, delta: isize) -> bool {
    let n = before.transcript.lines_view().len();
    let last = if n >= 1 { (n - 1) as usize } else { 0usize };
    let s = add_signed(before.scroll, delta);
    after == (App { scroll: if s <= last { s } else { last }, ..before })
}

/// What `press` leaves: a selection anchored at the character under the pointer, with the caret
/// on it.
pub open spec fn after_press(before: App, after: App, cell: Option<Pos>) -> bool {
    match cell {
        None => after == before,
        Some(pos) => {
            let at = clamp_spec(before.transcript.lines_view(), pos);
            after == (App {
                anchor: Some(at),
                grain: Grain::Char,
                cursor: at,
                scroll: follow(before.scroll, at.line, page_of(before.painted)),
                ..before
            })
        },
    }
}

/// What `drag` leaves: the caret, and with it the live end of the selection, on the character
/// under the pointer.
pub open spec fn after_drag(before: App, after: App, cell: Option<Pos>) -> bool {
    match cell {
        None => after == before,
        Some(pos) => moved_to(before, after, pos),
    }
}

/// What moving the caret to `pos` leaves: the caret on text that exists, kept on screen, and
/// everything else as it was.
pub open spec fn moved_to(app: App, after: App, pos: Pos) -> bool {
    let cursor = clamp_spec(app.transcript.lines_view(), pos);
    after == (App { cursor, scroll: follow(app.scroll, cursor.line, page_of(app.painted)), ..app })
}

impl App {
    /// Keep the caret on screen, using what the last frame managed to fit.
    fn follow_cursor(&mut self)
        ensures
            *final(self) == (App {
                scroll: follow(old(self).scroll, old(self).cursor.line, page_of(old(self).painted)),
                ..*old(self)
            }),
    {
        if self.cursor.line < self.scroll {
            self.scroll = self.cursor.line;
            return;
        }
        let page = self.painted.page();
        if self.cursor.line - self.scroll >= page {
            self.scroll = self.cursor.line - page + 1;
        }
    }

    /// Put the caret on `pos`, pulled back onto text that exists.
    pub fn move_to(&mut self, pos: Pos)
        ensures
            moved_to(*old(self), *final(self), pos),
    {
        self.cursor = self.transcript.clamp(pos);
        self.follow_cursor();
    }

    /// By character, stopping at the ends of the line rather than wrapping onto the next.
    pub fn move_by_char(&mut self, delta: isize)
        ensures
            moved_to(*old(self), *final(self), Pos { col: add_signed(old(self).cursor.col, delta), ..old(self).cursor }),
    {
        let col = add_signed_exec(self.cursor.col, delta);
        self.move_to(Pos { line: self.cursor.line, col });
    }

    /// By line, keeping the column where the new line is long enough to hold it.
    pub fn move_by_line(&mut self, delta: isize)
        ensures
            moved_to(*old(self), *final(self), Pos { line: add_signed(old(self).cursor.line, delta), ..old(self).cursor }),
    {
        let line = add_signed_exec(self.cursor.line, delta);
        self.move_to(Pos { line, col: self.cursor.col });
    }

    pub fn move_to_line(&mut self, line: usize)
        ensures
            moved_to(*old(self), *final(self), Pos { line, col: 0 }),
    {
        self.move_to(Pos::line_start(line));
    }

    /// By whole pages, a page being what the last frame fit.
    pub fn page_by(&mut self, pages: isize)
        ensures
            after_page(*old(self), *final(self), pages),
    {
        let page = self.painted.page();
        let step: isize = if page <= (isize::MAX as usize) {
            page as isize
        } else {
            1
        };
        self.move_by_line(mul_held_exec(pages, step));
    }

    /// To the first line of the next turn, when there is one.
    pub fn next_turn(&mut self)
        ensures
            after_next_turn(*old(self), *final(self)),
    {
        if let Some(line) = self.transcript.next_turn(self.cursor.line) {
            self.move_to_line(line);
        }
    }

    /// To the first line of the turn before, when there is one.
    pub fn prev_turn(&mut self)
        ensures
            after_prev_turn(*old(self), *final(self)),
    {
        if let Some(line) = self.transcript.prev_turn(self.cursor.line) {
            self.move_to_line(line);
        }
    }

    /// Wheel scroll: moves the viewport, leaves the caret where it is.
    pub fn scroll_by(&mut self, delta: isize)
        ensures
            after_scroll(*old(self), *final(self), delta),
    {
        let n = self.transcript.lines().len();
        let last = if n >= 1 { n - 1 } else { 0 };
        let s = add_signed_exec(self.scroll, delta);
        self.scroll = if s <= last { s } else { last };
    }

    /// A press starts a selection at the character under the pointer; releasing without a
    /// drag leaves it empty, so a bare click just places the caret.
    pub fn press(&mut self, cell: Option<Pos>)
        ensures
            after_press(*old(self), *final(self), cell),
    {
        let Some(pos) = cell else {
            return;
        };
        self.anchor = Some(self.transcript.clamp(pos));
        // the pointer always means exactly what it crossed
        self.grain = Grain::Char;
        self.move_to(pos);
    }

    /// Dragging carries the caret, and with it the live end of the selection.
    pub fn drag(&mut self, cell: Option<Pos>)
        ensures
            after_drag(*old(self), *final(self), cell),
    {
        let Some(pos) = cell else {
            return;
        };
        self.move_to(pos);
    }
}


/// A whole batch, parked until the agent can be written to. Only restored into the session
/// it was taken from.
#[derive(Debug)]
pub struct Pending {
    pub session: String,
    pub pairs: Vec<Pair>,
}

/// What `S` asks the caller to do with the batch.
#[derive(Debug)]
pub enum Outgoing {
    /// Nothing to do; the status line says why.
    Nothing,
    /// The agent is blocked: write the batch where the next run picks it up.
    Park(Pending),
    /// Write `text` into `pane`'s input, then hand focus back.
    Send { pane: PaneId, text: String },
}

/// Shown when a blocked agent forces the batch to wait for the next run.
pub open spec fn parked_status() -> Seq<char> {
    "agent is blocked — batch parked. q to close, answer the prompt, then reopen"@
}

pub open spec fn pair_views(pairs: Seq<Pair>) -> Seq<PairView> {
    pairs.map_values(|p: Pair| p@)
}

/// Whether a parked batch still lines up with the transcript: every pair ends on text that
/// exists.
pub open spec fn lines_up(lines: Seq<LineView>, pairs: Seq<PairView>) -> bool {
    forall|i: int| 0 <= i < pairs.len() ==> clamp_spec(lines, (#[trigger] pairs[i]).1) == pairs[i].1
}

/// Whether a parked batch comes back in a run over `session` and `lines`: it was parked from
/// this session, holds a pair, and every pair still ends on text.
pub open spec fn restorable(pending: Option<Pending>, session: Option<SessionId>, lines: Seq<LineView>) -> bool {
    match (pending, session) {
        (Some(p), Some(s)) => p.session@ == s.value() && p.pairs@.len() > 0 && lines_up(lines, pair_views(p.pairs@)),
        _ => false,
    }
}

impl App {
    /// Gather the batch for `S`: the bank, then the live selection as a bare quote. It goes to
    /// the agent, and the selection joins the bank — or, when the agent list says it is
    /// `Blocked` (a permission prompt would eat the text), the batch is parked for the next run
    /// and the bank, the selection and the question stay as they were. `agent` is what the
    /// agent list said of the pane; when it could not be read, the send is the better bet.
    pub fn send(&mut self, agent: Option<Status>) -> (out: Outgoing)
        ensures
            old(self).agent_pane is None ==> {
                &&& out is Nothing
                &&& *final(self) == (App { status: final(self).status, ..*old(self) })
                &&& final(self).status@ == "no QUOTR_AGENT_PANE — nowhere to send"@
            },
            old(self).agent_pane is Some ==> {
                let r = range_spec(*old(self));
                let live = old(self).anchor is Some && slice_spec(old(self).transcript.lines_view(), r.0, r.1).len() > 0;
                let batch = if live { old(self).bank@.push((r.0, r.1, Seq::<char>::empty())) } else { old(self).bank@ };
                &&& batch.len() == 0 ==> out is Nothing && *final(self) == (App { status: final(self).status, ..*old(self) })
                    && final(self).status@ == "nothing selected"@
                &&& batch.len() > 0 && agent == Some(Status::Blocked) ==> match old(self).session {
                    None => out is Nothing && *final(self) == (App { status: final(self).status, ..*old(self) })
                        && final(self).status@ == "agent is blocked and the batch could not be parked: no session to park under"@,
                    Some(s) => (out matches Outgoing::Park(p) && p.session@ == s.value() && pair_views(p.pairs@) == batch)
                        && *final(self) == *old(self),
                }
                &&& batch.len() > 0 && agent != Some(Status::Blocked) ==> {
                    &&& *final(self) == (App {
                        bank: final(self).bank,
                        anchor: if live { None } else { old(self).anchor },
                        grain: if live { Grain::Char } else { old(self).grain },
                        ..*old(self)
                    })
                    &&& final(self).bank@ == batch
                    &&& out matches Outgoing::Send { pane, text }
                    &&& pane.value() == old(self).agent_pane.unwrap().value()
                    &&& text@ == compose_spec(old(self).transcript.lines_view(), batch)
                }
            },
    {
        let pane = match &self.agent_pane {
            Some(p) => p.copy(),
            None => {
                self.status = "no QUOTR_AGENT_PANE — nowhere to send".to_owned();
                return Outgoing::Nothing;
            },
        };
        let (from, to) = self.range();
        let live = self.anchor.is_some() && self.transcript.slice(from, to).len() > 0;
        if !live && self.bank.is_empty() {
            self.status = "nothing selected".to_owned();
            return Outgoing::Nothing;
        }
        if agent == Some(Status::Blocked) {
            match &self.session {
                None => {
                    self.status = "agent is blocked and the batch could not be parked: no session to park under".to_owned();
                    return Outgoing::Nothing;
                },
                Some(session) => {
                    let pairs = self.bank.iter();
                    let mut copy: Vec<Pair> = Vec::new();
                    let mut i: usize = 0;
                    while i < pairs.len()
                        invariant
                            i <= pairs@.len(),
                            pair_views(copy@) == pair_views(pairs@).take(i as int),
                        decreases pairs.len() - i,
                    {
                        let ghost before = pair_views(copy@);
                        copy.push(pairs[i].copy());
                        assert(pair_views(copy@) =~= before.push(pairs@[i as int]@));
                        assert(pair_views(pairs@).take(i + 1) =~= pair_views(pairs@).take(i as int).push(pairs@[i as int]@));
                        i = i + 1;
                    }
                    assert(pair_views(pairs@).take(pairs@.len() as int) =~= pair_views(pairs@));
                    if live {
                        let ghost before = pair_views(copy@);
                        copy.push(Pair { from, to, question: String::new() });
                        assert(pair_views(copy@) =~= before.push((from, to, Seq::<char>::empty())));
                    }
                    return Outgoing::Park(Pending { session: session.as_str().to_owned(), pairs: copy });
                },
            }
        }
        self.bank_selection();
        let text = self.compose();
        Outgoing::Send { pane, text }
    }

    /// Say how parking went: `failure` is why the batch could not be written, if it could not.
    /// Deliberately does not quit: the picker has to stay up long enough to be read, and a park
    /// that failed must not close over the user's work.
    pub fn parked(&mut self, failure: Option<&str>)
        ensures
            match failure {
                None => final(self).status@ == parked_status(),
                Some(e) => final(self).status@ == "agent is blocked and the batch could not be parked: "@ + e@,
            },
            *final(self) == (App { status: final(self).status, ..*old(self) }),
    {
        match failure {
            None => {
                self.status = "agent is blocked — batch parked. q to close, answer the prompt, then reopen".to_owned();
            },
            Some(e) => {
                let mut status = "agent is blocked and the batch could not be parked: ".to_owned();
                status.append(e);
                self.status = status;
            },
        }
    }

    /// The batch landed in the agent's input: the picker's work is done.
    pub fn sent(&mut self)
        ensures
            *final(self) == (App { should_quit: true, ..*old(self) }),
    {
        self.should_quit = true;
    }

    /// The batch could not be written; say why and stay up.
    pub fn send_failed(&mut self, why: &str)
        ensures
            final(self).status@ == "send failed: "@ + why@,
            *final(self) == (App { status: final(self).status, ..*old(self) }),
    {
        let mut status = "send failed: ".to_owned();
        status.append(why);
        self.status = status;
    }

    /// Pick up a batch a previous run parked because the agent was blocked. Only a batch from
    /// this session, with at least one pair, all of whose pairs still end on text that exists,
    /// comes back: mis-quoting one of them is worse than restoring none. It opens where its
    /// first pair starts.
    pub fn restore(&mut self, pending: Option<Pending>)
        ensures
            ({
                if restorable(pending, old(self).session, old(self).transcript.lines_view()) {
                    let p = pending.unwrap();
                    let first = p.pairs@[0]@;
                    &&& *final(self) == (App {
                        bank: final(self).bank,
                        cursor: first.0,
                        scroll: first.0.line,
                        opening: false,
                        status: final(self).status,
                        ..*old(self)
                    })
                    &&& final(self).bank@ == pair_views(p.pairs@)
                    &&& final(self).status@ == "restored "@ + decimal(p.pairs@.len()) + " parked pair(s) — S sends"@
                } else {
                    *final(self) == *old(self)
                }
            }),
    {
        let Some(batch) = pending else {
            return;
        };
        let same = match &self.session {
            Some(s) => batch.session == s.as_str().to_owned(),
            None => false,
        };
        if !same || batch.pairs.len() == 0 {
            return;
        }
        let ghost lines = self.transcript.lines_view();
        let mut i: usize = 0;
        while i < batch.pairs.len()
            invariant
                i <= batch.pairs@.len(),
                pending == Some(batch),
                lines == self.transcript.lines_view(),
                lines == old(self).transcript.lines_view(),
                self.bank@ == old(self).bank@,
                self.cursor == old(self).cursor,
                self.scroll == old(self).scroll,
                self.opening == old(self).opening,
                self.status@ == old(self).status@,
                forall|j: int| 0 <= j < i ==> clamp_spec(lines, (#[trigger] pair_views(batch.pairs@)[j]).1) == pair_views(batch.pairs@)[j].1,
            decreases batch.pairs.len() - i,
        {
            let to = batch.pairs[i].to;
            assert(pair_views(batch.pairs@)[i as int] == batch.pairs@[i as int]@);
            if self.transcript.clamp(to) != to {
                assert(pair_views(batch.pairs@)[i as int].1 == to);
                assert(!lines_up(lines, pair_views(batch.pairs@)));
                return;
            }
            i = i + 1;
        }
        let count = batch.pairs.len();
        let first = batch.pairs[0].from;
        self.cursor = first;
        self.scroll = first.line;
        self.opening = false;
        proof {
            crate::bank::lemma_from(batch.pairs);
        }
        self.bank = Bank::from(batch.pairs);
        let mut status = String::new();
        spliced(&mut status, "restored ", count, " parked pair(s) — S sends");
        self.status = status;
    }
}


/// What `send` parks is what `restore` brings back: a batch parked from a session, in the
/// order it was banked, returns whole into the next run over that session, as long as every
/// pair still ends on text.
pub proof fn law_parked_batch_restores(pending: Pending, session: SessionId, lines: Seq<LineView>, batch: Seq<PairView>)
    requires
        pending.session@ == session.value(),
        pair_views(pending.pairs@) == batch,
        batch.len() > 0,
        lines_up(lines, batch),
    ensures
        restorable(Some(pending), Some(session), lines),
{
}

/// The anchor after asking for a selection of `grain`: a new one at the caret when there was
/// none, none when the live one already had that grain, and the live one otherwise.
pub open spec fn toggled(anchor: Option<Pos>, current: Grain, cursor: Pos, grain: Grain) -> Option<Pos> {
    if anchor is None {
        Some(cursor)
    } else if current == grain {
        None
    } else {
        anchor
    }
}

/// Asking for the same grain twice starts a selection and drops it again.
pub proof fn law_toggle_twice_drops(current: Grain, cursor: Pos, grain: Grain)
    ensures
        toggled(toggled(None, current, cursor, grain), grain, cursor, grain) is None,
{
}

/// Asking for the other grain keeps the live selection's anchor: the range is re-cut, not
/// started over.
pub proof fn law_other_grain_keeps_anchor(anchor: Pos, current: Grain, cursor: Pos, grain: Grain)
    requires
        current != grain,
    ensures
        toggled(Some(anchor), current, cursor, grain) == Some(anchor),
{
}

/// The quoted range is always in reading order, whichever way the caret moved from the
/// anchor and whichever grain cuts it.
pub proof fn law_range_in_reading_order(app: App)
    ensures
        pos_le(range_spec(app).0, range_spec(app).1),
{
}

/// Wherever the caret moves, the view follows just enough to keep it on screen: the caret's
/// line is at or below the first painted line and within a page of it.
pub proof fn law_caret_stays_on_screen(scroll: usize, line: usize, page: usize)
    requires
        page >= 1,
    ensures
        follow(scroll, line, page) <= line < follow(scroll, line, page) + page,
{
}


/// A parked batch survives to the next run: a range made from a caret and an anchor that sit
/// on text ends on text too, so a pair banked from it lines up with the same transcript when
/// the batch is restored.
pub proof fn law_ranges_stay_on_text(app: App)
    requires
        clamp_spec(app.transcript.lines_view(), app.cursor) == app.cursor,
        app.anchor matches Some(a) ==> clamp_spec(app.transcript.lines_view(), a) == a,
        app.transcript.lines_view().len() > 0,
        forall|i: int| 0 <= i < app.transcript.lines_view().len() ==> (#[trigger] app.transcript.lines_view()[i]).0.len() <= usize::MAX,
    ensures
        clamp_spec(app.transcript.lines_view(), range_spec(app).0) == range_spec(app).0,
        clamp_spec(app.transcript.lines_view(), range_spec(app).1) == range_spec(app).1,
{
}

/// What carrying out `command` leaves, `cell` being the character under the pointer: each
/// command does what the method of the same name does, `Quit` closes the picker, and
/// `Nothing` — or `Send`, which needs the agent's status first — changes nothing.
pub open spec fn applied(before: App, after: App, command: Command, cell: Option<Pos>) -> bool {
    match command {
        Command::Nothing => after == before,
        Command::Send => after == before,
        Command::Quit => after == (App { should_quit: true, ..before }),
        Command::ClearRange => after == (App { anchor: None, grain: Grain::Char, ..before }),
        Command::MoveByLine(d) => moved_to(before, after, Pos { line: add_signed(before.cursor.line, d), ..before.cursor }),
        Command::MoveByChar(d) => moved_to(before, after, Pos { col: add_signed(before.cursor.col, d), ..before.cursor }),
        Command::MoveToLine(line) => moved_to(before, after, Pos { line, col: 0 }),
        Command::PageBy(pages) => after_page(before, after, pages),
        Command::NextTurn => after_next_turn(before, after),
        Command::PrevTurn => after_prev_turn(before, after),
        Command::ToggleRange(grain) => after == (App {
            grain,
            anchor: toggled(before.anchor, before.grain, before.cursor, grain),
            ..before
        }),
        Command::Ask => after_ask(before, after),
        Command::EditPair => after_edit_pair(before, after),
        Command::DeletePair => after_delete_pair(before, after),
        Command::CancelAsk => after == (App { mode: Mode::Browse, ..before }),
        Command::BankPair => after_bank_pair(before, after),
        Command::Backspace => after_backspace(before, after),
        Command::ClearQuestion => after == (App { question: after.question, ..before }) && after.question@.len() == 0,
        Command::Type(c) => after == (App { question: after.question, ..before }) && after.question@ == before.question@.push(c),
        Command::ScrollBy(d) => after_scroll(before, after, d),
        Command::Press => after_press(before, after, cell),
        Command::Drag => after_drag(before, after, cell),
    }
}

impl App {
    /// Carry out what a key or the mouse asked for. `Send` is left to the caller, which has to
    /// read the agent's status first: the answer says whether it was asked for.
    pub fn apply(&mut self, command: Command, cell: Option<Pos>) -> (send: bool)
        ensures
            send == (command == Command::Send),
            applied(*old(self), *final(self), command, cell),
    {
        match command {
            Command::Nothing => {},
            Command::Send => {
                return true;
            },
            Command::Quit => {
                self.should_quit = true;
            },
            Command::ClearRange => self.clear_range(),
            Command::MoveByLine(d) => self.move_by_line(d),
            Command::MoveByChar(d) => self.move_by_char(d),
            Command::MoveToLine(line) => self.move_to_line(line),
            Command::PageBy(pages) => self.page_by(pages),
            Command::NextTurn => self.next_turn(),
            Command::PrevTurn => self.prev_turn(),
            Command::ToggleRange(grain) => self.toggle_range(grain),
            Command::Ask => self.ask(),
            Command::EditPair => self.edit_pair(),
            Command::DeletePair => self.delete_pair(),
            Command::CancelAsk => self.cancel_ask(),
            Command::BankPair => self.bank_pair(),
            Command::Backspace => self.backspace(),
            Command::ClearQuestion => self.clear_question(),
            Command::Type(c) => self.type_char(c),
            Command::ScrollBy(d) => self.scroll_by(d),
            Command::Press => self.press(cell),
            Command::Drag => self.drag(cell),
        }
        false
    }
}

} // verus!
