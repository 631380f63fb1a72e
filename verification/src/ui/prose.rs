//! One line's color: its block shape, then the emphasis runs the transcript read inside it —
//! and a rendered table's rows, each with its grid rules and its cells' emphasis.

use vstd::prelude::*;

use crate::markup::{Block, Span, Tone};
use crate::text::chars_of;
use crate::ui::column::GUTTER;
use crate::ui::markdown::{language, language_spec, rule, ruled};
use crate::ui::style::{sort_runs, sorted_runs, Ink, LineStyle, Run, StyleView};
use crate::ui::table::{table_spec, usizes, Markup, Table, TableView};

verus! {

/// `a + b`, held at the top of the range.
pub open spec fn sat_add(a: usize, b: usize) -> usize {
    if a + b > usize::MAX { usize::MAX } else { (a + b) as usize }
}

/// The heading a line's emphasis is laid over, if it is one.
pub open spec fn heading_of(block: Block) -> Option<usize> {
    match block {
        Block::Heading(level) => Some(level),
        _ => None,
    }
}

/// The ink a line's text paints in between its markers.
pub open spec fn outer_of(block: Block) -> Ink {
    match block {
        Block::Heading(level) => Ink::Heading(level),
        _ => Ink::Plain,
    }
}

/// A raw table row's pipes among its first `k` characters, dimmed so the cells read as
/// columns.
pub open spec fn pipe_runs(text: Seq<char>, outer: Ink, k: int) -> Seq<Run>
    decreases k,
{
    if k <= 0 || k > text.len() {
        Seq::empty()
    } else {
        pipe_runs(text, outer, k - 1) + if text[k - 1] == '|' {
            seq![Run { start: (k - 1) as usize, ink: Ink::Dim }, Run { start: k as usize, ink: outer }]
        } else {
            Seq::empty()
        }
    }
}

/// Runs for the markers a line still carries. A heading has none left, so its accent simply
/// opens the line.
pub open spec fn prefix_runs(block: Block, text: Seq<char>) -> Seq<Run> {
    let outer = outer_of(block);
    match block {
        Block::Heading(_) => seq![Run { start: 0, ink: outer }],
        Block::Rule => seq![Run { start: 0, ink: Ink::Dim }],
        Block::Quote(len) => seq![Run { start: 0, ink: Ink::Dim }, Run { start: len, ink: outer }],
        Block::Bullet { at, len } => seq![Run { start: at, ink: Ink::Code }, Run { start: sat_add(at, len), ink: outer }],
        Block::TableRow => pipe_runs(text, outer, text.len() as int),
        _ => Seq::empty(),
    }
}

/// A run in and a run back out for each of the first `k` spans, laid over the line's own ink.
pub open spec fn span_runs(spans: Seq<Span>, heading: Option<usize>, outer: Ink, k: int) -> Seq<Run>
    decreases k,
{
    if k <= 0 || k > spans.len() {
        Seq::empty()
    } else {
        span_runs(spans, heading, outer, k - 1) + seq![
            Run { start: spans[k - 1].from, ink: Ink::Marked(heading, spans[k - 1].emphasis) },
            Run { start: spans[k - 1].to, ink: outer },
        ]
    }
}

/// A line's style from what the transcript read off it: its markers' runs and its spans',
/// in order — a span wins a marker run starting at the same offset — and a blockquote's
/// markers painted as a rule.
pub open spec fn line_style_spec(text: Seq<char>, block: Block, spans: Seq<Span>) -> StyleView {
    let runs = sorted_runs(prefix_runs(block, text) + span_runs(spans, heading_of(block), outer_of(block), spans.len() as int));
    let display = match block {
        Block::Quote(len) => Some(ruled(text, len as int)),
        _ => None,
    };
    (runs, display, None, None, false)
}

fn push_span_runs(out: &mut Vec<Run>, spans: &[Span], heading: Option<usize>, outer: Ink)
    ensures
        final(out)@ == old(out)@ + span_runs(spans@, heading, outer, spans@.len() as int),
{
    let ghost start = out@;
    let mut i: usize = 0;
    while i < spans.len()
        invariant
            i <= spans@.len(),
            out@ == start + span_runs(spans@, heading, outer, i as int),
        decreases spans.len() - i,
    {
        let s = spans[i];
        out.push(Run { start: s.from, ink: Ink::Marked(heading, s.emphasis) });
        out.push(Run { start: s.to, ink: outer });
        assert(out@ =~= start + span_runs(spans@, heading, outer, i + 1));
        i = i + 1;
    }
}

/// Color one line from what the transcript already read off it.
pub fn line_style(line: &Markup) -> (s: LineStyle)
    ensures
        s@ == line_style_spec(line.text@, line.block, line.spans@),
{
    let heading = match line.block {
        Block::Heading(level) => Some(level),
        _ => None,
    };
    let outer = match line.block {
        Block::Heading(level) => Ink::Heading(level),
        _ => Ink::Plain,
    };
    let mut runs: Vec<Run> = Vec::new();
    match line.block {
        Block::Heading(_) => {
            runs.push(Run { start: 0, ink: outer });
        },
        Block::Rule => {
            runs.push(Run { start: 0, ink: Ink::Dim });
        },
        Block::Quote(len) => {
            runs.push(Run { start: 0, ink: Ink::Dim });
            runs.push(Run { start: len, ink: outer });
        },
        Block::Bullet { at, len } => {
            runs.push(Run { start: at, ink: Ink::Code });
            runs.push(Run { start: at.saturating_add(len), ink: outer });
        },
        Block::TableRow => {
            let chars = chars_of(line.text);
            let mut k: usize = 0;
            while k < chars.len()
                invariant
                    k <= chars@.len(),
                    chars@ == line.text@,
                    runs@ == pipe_runs(line.text@, outer, k as int),
                decreases chars.len() - k,
            {
                if chars[k] == '|' {
                    runs.push(Run { start: k, ink: Ink::Dim });
                    runs.push(Run { start: k + 1, ink: outer });
                }
                assert(runs@ =~= pipe_runs(line.text@, outer, k + 1));
                k = k + 1;
            }
        },
        _ => {},
    }
    assert(runs@ =~= prefix_runs(line.block, line.text@));
    push_span_runs(&mut runs, line.spans, heading, outer);
    let style = LineStyle::new(sort_runs(&runs));
    match line.block {
        Block::Quote(len) => style.showing(rule(line.text, len)),
        _ => style,
    }
}

/// A rendered table's rules, each a dim run one character long.
pub open spec fn rule_runs(rules: Seq<int>, k: int) -> Seq<Run>
    decreases k,
{
    if k <= 0 || k > rules.len() {
        Seq::empty()
    } else {
        rule_runs(rules, k - 1) + seq![
            Run { start: rules[k - 1] as usize, ink: Ink::Dim },
            Run { start: sat_add(rules[k - 1] as usize, 1), ink: Ink::Plain },
        ]
    }
}

/// The style of row `k` of a rendered table: the delimiter row all rule, every other row its
/// grid rules under the emphasis its source carried; each showing its grid text and selecting
/// whole; the first carrying the top border, the last the bottom one.
pub open spec fn table_row_style(t: TableView, k: int) -> StyleView {
    let runs = if k == 1 {
        seq![Run { start: 0, ink: Ink::Dim }]
    } else {
        sorted_runs(rule_runs(t.4, t.4.len() as int) + span_runs(row_spans(t.1, k), None, Ink::Plain, row_spans(t.1, k).len() as int))
    };
    (
        runs,
        Some(t.0[k]),
        if k == 0 { Some(t.2) } else { None },
        if k == t.0.len() - 1 { Some(t.3) } else { None },
        true,
    )
}

/// The emphasis spans of a table's row `k`: none where the table carries none for it.
pub open spec fn row_spans(spans: Seq<Seq<Span>>, k: int) -> Seq<Span> {
    if 0 <= k < spans.len() {
        spans[k]
    } else {
        Seq::empty()
    }
}

/// The style for each line a table covers, in order.
pub fn table_styles(t: &Table) -> (out: Vec<LineStyle>)
    ensures
        out@.len() == t@.0.len(),
        forall|k: int| 0 <= k < out@.len() ==> (#[trigger] out@[k])@ == table_row_style(t@, k),
{
    let mut rules: Vec<Run> = Vec::new();
    let mut r: usize = 0;
    while r < t.rules.len()
        invariant
            r <= t.rules@.len(),
            rules@ == rule_runs(usizes(t.rules@), r as int),
        decreases t.rules.len() - r,
    {
        let at = t.rules[r];
        rules.push(Run { start: at, ink: Ink::Dim });
        rules.push(Run { start: at.saturating_add(1), ink: Ink::Plain });
        assert(usizes(t.rules@)[r as int] == at);
        assert(rules@ =~= rule_runs(usizes(t.rules@), r + 1));
        r = r + 1;
    }
    let n = t.rows.len();
    let mut out: Vec<LineStyle> = Vec::new();
    let mut k: usize = 0;
    while k < n
        invariant
            k <= n == t.rows@.len(),
            rules@ == rule_runs(usizes(t.rules@), t.rules@.len() as int),
            out@.len() == k,
            forall|j: int| 0 <= j < k ==> (#[trigger] out@[j])@ == table_row_style(t@, j),
        decreases n - k,
    {
        let runs = if k == 1 {
            vec![Run { start: 0, ink: Ink::Dim }]
        } else {
            let mut all: Vec<Run> = Vec::new();
            let mut c: usize = 0;
            while c < rules.len()
                invariant
                    c <= rules@.len(),
                    all@ == rules@.take(c as int),
                decreases rules.len() - c,
            {
                all.push(rules[c]);
                assert(all@ =~= rules@.take(c + 1));
                c = c + 1;
            }
            assert(rules@.take(rules@.len() as int) =~= rules@);
            if k < t.spans.len() {
                assert(row_spans(t@.1, k as int) == t.spans@[k as int]@);
                push_span_runs(&mut all, t.spans[k].as_slice(), None, Ink::Plain);
            } else {
                assert(all@ =~= all@ + span_runs(row_spans(t@.1, k as int), None, Ink::Plain, 0));
            }
            sort_runs(&all)
        };
        assert(t@.0[k as int] == t.rows@[k as int]@);
        let mut style = LineStyle::new(runs).showing(t.rows[k].clone()).linewise();
        if k == 0 {
            style = style.above(t.top.clone());
        }
        if k + 1 == n {
            style = style.below(t.bottom.clone());
        }
        proof {
            assert(style@ == table_row_style(t@, k as int));
        }
        out.push(style);
        k = k + 1;
    }
    out
}


/// A line as the walk over a transcript sees it: text, tone, block, spans.
pub type MarkView = (Seq<char>, Tone, Block, Seq<Span>);

pub open spec fn mark_views(lines: Seq<Markup>) -> Seq<MarkView> {
    lines.map_values(|m: Markup| (m.text@, m.tone, m.block, m.spans@))
}

pub open spec fn table_lines(ls: Seq<MarkView>) -> Seq<(Seq<char>, Seq<Span>)> {
    ls.map_values(|m: MarkView| (m.0, m.3))
}

/// How many lines from `i` on are agent lines.
pub open spec fn agent_run(ls: Seq<MarkView>, i: int) -> nat
    decreases ls.len() - i,
{
    if 0 <= i < ls.len() && ls[i].1 == Tone::Agent {
        1 + agent_run(ls, i + 1)
    } else {
        0
    }
}

/// How many lines from `i` on are an agent's fenced code.
pub open spec fn code_run(ls: Seq<MarkView>, i: int) -> nat
    decreases ls.len() - i,
{
    if 0 <= i < ls.len() && ls[i].1 == Tone::Agent && ls[i].2 == Block::Code {
        1 + code_run(ls, i + 1)
    } else {
        0
    }
}

pub proof fn lemma_runs_fit(ls: Seq<MarkView>, i: int)
    requires
        0 <= i <= ls.len(),
    ensures
        agent_run(ls, i) <= ls.len() - i,
        code_run(ls, i) <= ls.len() - i,
    decreases ls.len() - i,
{
    if i < ls.len() {
        lemma_runs_fit(ls, i + 1);
    }
}

/// A table covers at least two lines and no more than it was given.
pub proof fn lemma_table_len(ls: Seq<(Seq<char>, Seq<Span>)>, width: int)
    ensures
        table_spec(ls, width) is Some ==> 2 <= table_spec(ls, width).unwrap().0.len() <= ls.len(),
        table_spec(ls, width) is Some ==> table_spec(ls, width).unwrap().0.len() == table_spec(ls, width).unwrap().1.len(),
{
    if ls.len() >= 2 {
        crate::ui::table::lemma_body_len(ls, 2);
    }
}

/// A fenced body for the highlighter: where it starts, how many lines it holds, the language
/// on the rail above it, and its text with a newline after every line.
#[derive(Debug)]
pub struct FenceJob {
    pub start: usize,
    pub lines: usize,
    pub language: String,
    pub source: String,
}

pub type JobView = (int, int, Seq<char>, Seq<char>);

impl View for FenceJob {
    type V = JobView;

    open spec fn view(&self) -> JobView {
        (self.start as int, self.lines as int, self.language@, self.source@)
    }
}

/// The first `k` lines from `i`, each followed by a newline.
pub open spec fn fence_source(ls: Seq<MarkView>, i: int, k: int) -> Seq<char>
    decreases k,
{
    if k <= 0 {
        Seq::empty()
    } else {
        fence_source(ls, i, k - 1) + ls[i + k - 1].0 + seq!['\n']
    }
}

/// The fenced body starting at `i`, `m` lines long.
pub open spec fn fence_job(ls: Seq<MarkView>, i: int, m: int) -> JobView {
    let language = if i >= 1 && ls[i - 1].2 == Block::Rail { language_spec(ls[i - 1].0) } else { Seq::empty() };
    (i, m, language, fence_source(ls, i, m))
}

pub open spec fn plain_view() -> StyleView {
    (Seq::empty(), None, None, None, false)
}

pub open spec fn rail_view() -> StyleView {
    (seq![Run { start: 0, ink: Ink::Dim }], None, None, None, false)
}

/// Every line's style from `i` on, and the fenced bodies left for the highlighter (their lines
/// stay plain until it colors them). User turns are left unstyled: they read dim as a whole,
/// which is the separator's job. A table takes the agent lines it covers when its grid fits;
/// otherwise its rows read as prose.
pub open spec fn walk(ls: Seq<MarkView>, width: int, i: int) -> (Seq<StyleView>, Seq<JobView>)
    decreases ls.len() - i,
{
    if i < 0 || i >= ls.len() {
        (Seq::empty(), Seq::empty())
    } else if ls[i].1 != Tone::Agent {
        let rest = walk(ls, width, i + 1);
        (seq![plain_view()] + rest.0, rest.1)
    } else {
        match ls[i].2 {
            Block::Rail => {
                let rest = walk(ls, width, i + 1);
                (seq![rail_view()] + rest.0, rest.1)
            },
            Block::Code => {
                let m = code_run(ls, i) as int;
                let step = if m >= 1 { m } else { 1 };
                proof {
                    lemma_runs_fit(ls, i);
                }
                let rest = walk(ls, width, i + step);
                (Seq::new(step as nat, |k: int| plain_view()) + rest.0, seq![fence_job(ls, i, step)] + rest.1)
            },
            Block::TableRow => match table_spec(table_lines(ls.subrange(i, i + agent_run(ls, i))), width) {
                Some(t) => {
                    let step = if t.0.len() >= 1 { t.0.len() as int } else { 1 };
                    proof {
                        lemma_runs_fit(ls, i);
                        lemma_table_len(table_lines(ls.subrange(i, i + agent_run(ls, i))), width);
                    }
                    let rest = walk(ls, width, i + step);
                    (Seq::new(step as nat, |k: int| table_row_style(t, k)) + rest.0, rest.1)
                },
                None => {
                    let rest = walk(ls, width, i + 1);
                    (seq![line_style_spec(ls[i].0, ls[i].2, ls[i].3)] + rest.0, rest.1)
                },
            },
            _ => {
                let rest = walk(ls, width, i + 1);
                (seq![line_style_spec(ls[i].0, ls[i].2, ls[i].3)] + rest.0, rest.1)
            },
        }
    }
}


pub open spec fn style_views(styles: Seq<LineStyle>) -> Seq<StyleView> {
    styles.map_values(|s: LineStyle| s@)
}

pub open spec fn job_views(jobs: Seq<FenceJob>) -> Seq<JobView> {
    jobs.map_values(|j: FenceJob| j@)
}


/// The fenced body starting at `index`: how many lines it runs, and the job that colors it.
fn code_segment(lines: &[Markup], index: usize) -> (r: (usize, FenceJob))
    requires
        index < lines@.len(),
        lines@[index as int].tone == Tone::Agent,
        lines@[index as int].block == Block::Code,
    ensures
        r.0 == code_run(mark_views(lines@), index as int),
        r.0 >= 1,
        index + r.0 <= lines@.len(),
        r.1@ == fence_job(mark_views(lines@), index as int, r.0 as int),
{
    let ghost ls = mark_views(lines@);
    let n = lines.len();
    let mut m: usize = 0;
    let mut source = String::new();
    while index + m < n && lines[index + m].tone == Tone::Agent && lines[index + m].block == Block::Code
        invariant
            index + m <= n == lines@.len(),
            ls == mark_views(lines@),
            code_run(ls, index as int) == m + code_run(ls, (index + m) as int),
            source@ == fence_source(ls, index as int, m as int),
        decreases n - index - m,
    {
        assert(ls[(index + m) as int] == (lines@[(index + m) as int].text@, lines@[(index + m) as int].tone, lines@[(index + m) as int].block, lines@[(index + m) as int].spans@));
        source.append(lines[index + m].text);
        source.push('\n');
        m = m + 1;
    }
    assert(m >= 1);
    let lang = if index >= 1 && lines[index - 1].block == Block::Rail {
        assert(ls[index - 1] == (lines@[index - 1].text@, lines@[index - 1].tone, lines@[index - 1].block, lines@[index - 1].spans@));
        language(lines[index - 1].text)
    } else {
        String::new()
    };
    proof {
        lemma_runs_fit(ls, index as int);
    }
    (m, FenceJob { start: index, lines: m, language: lang, source })
}

/// The agent lines from `index` on, for as long as they run.
fn agent_lines<'a>(lines: &[Markup<'a>], index: usize) -> (sub: Vec<Markup<'a>>)
    requires
        index <= lines@.len(),
    ensures
        sub@.map_values(|m: Markup| m@) == table_lines(mark_views(lines@).subrange(index as int, index + agent_run(mark_views(lines@), index as int))),
{
    let ghost ls = mark_views(lines@);
    let n = lines.len();
    let mut rows: usize = 0;
    let mut sub: Vec<Markup> = Vec::new();
    while index + rows < n && lines[index + rows].tone == Tone::Agent
        invariant
            index + rows <= n == lines@.len(),
            ls == mark_views(lines@),
            agent_run(ls, index as int) == rows + agent_run(ls, (index + rows) as int),
            sub@ == lines@.subrange(index as int, (index + rows) as int),
        decreases n - index - rows,
    {
        assert(ls[(index + rows) as int].1 == lines@[(index + rows) as int].tone);
        sub.push(lines[index + rows]);
        assert(sub@ =~= lines@.subrange(index as int, (index + rows + 1) as int));
        rows = rows + 1;
    }
    assert(sub@.map_values(|m: Markup| m@) =~= table_lines(ls.subrange(index as int, index + agent_run(ls, index as int))));
    sub
}

/// Color every line, once per transcript: a style for each line, and the fenced bodies the
/// highlighter still has to color. Tables are laid out for the full measure, less the gutter.
#[verifier::loop_isolation(false)]
#[verifier::rlimit(60)]
#[verifier::spinoff_prover]
pub fn analyze(lines: &[Markup], measure: u16) -> (r: (Vec<LineStyle>, Vec<FenceJob>))
    ensures
        style_views(r.0@) == walk(mark_views(lines@), (if measure >= GUTTER { measure - GUTTER } else { 0 }) as int, 0).0,
        job_views(r.1@) == walk(mark_views(lines@), (if measure >= GUTTER { measure - GUTTER } else { 0 }) as int, 0).1,
{
    let ghost ls = mark_views(lines@);
    let width: usize = measure.saturating_sub(GUTTER) as usize;
    let ghost w = width as int;
    let ghost total = walk(ls, w, 0);
    let n = lines.len();
    let mut out: Vec<LineStyle> = Vec::new();
    let mut jobs: Vec<FenceJob> = Vec::new();
    let mut index: usize = 0;
    while index < n
        invariant
            index <= n == ls.len(),
            style_views(out@) + walk(ls, w, index as int).0 == total.0,
            job_views(jobs@) + walk(ls, w, index as int).1 == total.1,
        decreases n - index,
    {
        let line = lines[index];
        assert(ls[index as int] == (line.text@, line.tone, line.block, line.spans@));
        let ghost rest = walk(ls, w, index as int);
        let ghost before_out = style_views(out@);
        let ghost before_jobs = job_views(jobs@);
        if line.tone != Tone::Agent {
            out.push(LineStyle::plain());
            assert(style_views(out@) + walk(ls, w, index + 1).0 =~= before_out + rest.0);
            index = index + 1;
        } else {
            match line.block {
                Block::Rail => {
                    let mut dim: Vec<Run> = Vec::new();
                    dim.push(Run { start: 0, ink: Ink::Dim });
                    assert(dim@ =~= seq![Run { start: 0, ink: Ink::Dim }]);
                    out.push(LineStyle::new(dim));
                    assert(style_views(out@) + walk(ls, w, index + 1).0 =~= before_out + rest.0);
                    index = index + 1;
                },
                Block::Code => {
                    let (m, job) = code_segment(lines, index);
                    let mut k: usize = 0;
                    while k < m
                        invariant
                            k <= m,
                            style_views(out@) == before_out + Seq::new(k as nat, |j: int| plain_view()),
                        decreases m - k,
                    {
                        let ghost prev = style_views(out@);
                        let fresh = LineStyle::plain();
                        out.push(fresh);
                        assert(style_views(out@) =~= prev.push(plain_view()));
                        assert(style_views(out@) =~= before_out + Seq::new((k + 1) as nat, |j: int| plain_view()));
                        k = k + 1;
                    }
                    jobs.push(job);
                    assert(job_views(jobs@) =~= before_jobs.push(fence_job(ls, index as int, m as int)));
                    assert(style_views(out@) + walk(ls, w, (index + m) as int).0 =~= before_out + rest.0);
                    assert(job_views(jobs@) + walk(ls, w, (index + m) as int).1 =~= before_jobs + rest.1);
                    index = index + m;
                },
                Block::TableRow => {
                    let sub = agent_lines(lines, index);
                    match Table::parse(&sub, width) {
                        Some(t) => {
                            proof {
                                lemma_table_len(table_lines(ls.subrange(index as int, index + agent_run(ls, index as int))), w);
                                lemma_runs_fit(ls, index as int);
                            }
                            assert(t.spans@.len() == t@.1.len());
                            assert(t.rows@.len() == t@.0.len());
                            let styles = table_styles(&t);
                            let step = t.len();
                            let ghost tv = t@;
                            let mut k: usize = 0;
                            while k < styles.len()
                                invariant
                                    k <= styles@.len() == step,
                                    forall|j: int| 0 <= j < styles@.len() ==> (#[trigger] styles@[j])@ == table_row_style(tv, j),
                                    style_views(out@) == before_out + Seq::new(k as nat, |j: int| table_row_style(tv, j)),
                                decreases styles.len() - k,
                            {
                                let ghost prev = style_views(out@);
                                let copy = styles[k].clone_style();
                                out.push(copy);
                                assert(style_views(out@) =~= prev.push(table_row_style(tv, k as int)));
                                assert(style_views(out@) =~= before_out + Seq::new((k + 1) as nat, |j: int| table_row_style(tv, j)));
                                k = k + 1;
                            }
                            assert(style_views(out@) + walk(ls, w, (index + step) as int).0 =~= before_out + rest.0);
                            assert(job_views(jobs@) + walk(ls, w, (index + step) as int).1 =~= before_jobs + rest.1);
                            index = index + step;
                        },
                        None => {
                            out.push(line_style(&line));
                            assert(style_views(out@) + walk(ls, w, index + 1).0 =~= before_out + rest.0);
                            index = index + 1;
                        },
                    }
                },
                _ => {
                    out.push(line_style(&line));
                    assert(style_views(out@) + walk(ls, w, index + 1).0 =~= before_out + rest.0);
                    index = index + 1;
                },
            }
        }
    }
    assert(style_views(out@) =~= total.0);
    assert(job_views(jobs@) =~= total.1);
    (out, jobs)
}

/// Lay the highlighter's colors for a fenced body over its lines: the `k`th line from
/// `start` takes `runs[k]` and nothing else; lines the styles do not reach are dropped, and
/// every other line keeps its style.
pub fn apply_runs(styles: &mut Vec<LineStyle>, start: usize, runs: Vec<Vec<Run>>)
    ensures
        style_views(final(styles)@).len() == style_views(old(styles)@).len(),
        forall|i: int|
            #![trigger final(styles)@[i]]
            0 <= i < final(styles)@.len() ==> final(styles)@[i]@ == if start <= i < start + runs@.len() {
                (runs@[i - start]@, None::<Seq<char>>, None::<Seq<char>>, None::<Seq<char>>, false)
            } else {
                old(styles)@[i]@
            },
{
    let n = runs.len();
    let ghost all = runs@;
    let mut k: usize = 0;
    while k < n
        invariant
            n == all.len(),
            all == runs@,
            k <= n,
            styles@.len() == old(styles)@.len(),
            forall|i: int|
                #![trigger styles@[i]]
                0 <= i < styles@.len() ==> styles@[i]@ == if start <= i < start + k {
                    (all[i - start]@, None::<Seq<char>>, None::<Seq<char>>, None::<Seq<char>>, false)
                } else {
                    old(styles)@[i]@
                },
        decreases n - k,
    {
        let line = runs[k].clone();
        assert(line@ == all[k as int]@);
        if start <= styles.len() && k < styles.len() - start {
            styles.set(start + k, LineStyle::new(line));
        }
        k = k + 1;
    }
}

} // verus!
