//! Reading a line's block-level shape off the markers it opens with.

use vstd::prelude::*;

use crate::markup::Block;
use crate::transcript::marks::{lemma_run_len, run_len};
use crate::text::is_digit;

verus! {

/// Past this many leading spaces a line is indented code, not a marked block.
pub const CODE_INDENT: usize = 4;

/// Leading spaces, capped at [`CODE_INDENT`].
pub open spec fn spec_indent(s: Seq<char>) -> nat {
    if run_len(s, 0, ' ') < 4 {
        run_len(s, 0, ' ')
    } else {
        4
    }
}

/// How many of `s[from..]` equal `c`.
pub open spec fn count(s: Seq<char>, from: int, c: char) -> nat
    decreases s.len() - from,
{
    if 0 <= from < s.len() {
        (if s[from] == c { 1nat } else { 0nat }) + count(s, from + 1, c)
    } else {
        0
    }
}

/// How many characters from `i` on are `>` or a space.
pub open spec fn quote_run(s: Seq<char>, i: int) -> nat
    decreases s.len() - i,
{
    if 0 <= i < s.len() && (s[i] == '>' || s[i] == ' ') {
        1 + quote_run(s, i + 1)
    } else {
        0
    }
}

pub proof fn lemma_quote_run(s: Seq<char>, i: int)
    requires
        0 <= i <= s.len(),
    ensures
        i + quote_run(s, i) <= s.len(),
    decreases s.len() - i,
{
    if i < s.len() && (s[i] == '>' || s[i] == ' ') {
        lemma_quote_run(s, i + 1);
    }
}

/// How many ASCII digits run from `i` on.
pub open spec fn digit_run(s: Seq<char>, i: int) -> nat
    decreases s.len() - i,
{
    if 0 <= i < s.len() && is_digit(s[i]) {
        1 + digit_run(s, i + 1)
    } else {
        0
    }
}

/// A pipe-table row: starts with `|` once indented past any block marker.
pub open spec fn spec_is_table_row(s: Seq<char>) -> bool {
    spec_indent(s) < s.len() && s[spec_indent(s) as int] == '|'
}

pub open spec fn is_scaffolding(c: char) -> bool {
    c == '|' || c == '-' || c == ':' || c == ' '
}

/// A `|---|:--:|` delimiter row, which carries no content at all.
pub open spec fn spec_is_table_rule(s: Seq<char>) -> bool {
    spec_is_table_row(s) && forall|k: int| 0 <= k < s.len() ==> is_scaffolding(#[trigger] s[k])
}

/// Three or more of the same `-`, `*`, or `_`, spaces allowed between and nothing else.
pub open spec fn spec_is_thematic_break(s: Seq<char>) -> bool {
    let at = spec_indent(s) as int;
    &&& at < s.len()
    &&& (s[at] == '-' || s[at] == '*' || s[at] == '_')
    &&& count(s, at, s[at]) >= 3
    &&& forall|k: int| at <= k < s.len() ==> (#[trigger] s[k] == s[at] || s[k] == ' ')
}

/// `#` count when the line is an ATX heading, else `None`.
pub open spec fn spec_heading_level(s: Seq<char>) -> Option<usize> {
    let at = spec_indent(s) as int;
    let hashes = run_len(s, at, '#');
    let followed = at + hashes >= s.len() || s[at + hashes] == ' ';
    if 1 <= hashes <= 6 && followed {
        Some(hashes as usize)
    } else {
        None
    }
}

/// Characters a blockquote's marker takes, or 0 when the line is not one. A whole nested
/// prefix counts as one: `> > ` reads as one rule, not two.
pub open spec fn spec_quote_len(s: Seq<char>) -> nat {
    let at = spec_indent(s) as int;
    if at < s.len() && s[at] == '>' {
        (at + quote_run(s, at)) as nat
    } else {
        0
    }
}

/// Characters the list bullet takes, or 0 when the line has none.
pub open spec fn spec_bullet_len(s: Seq<char>) -> nat {
    let start = spec_indent(s) as int;
    let bare = start + 1 >= s.len() || s[start + 1] == ' ';
    if start < s.len() && (s[start] == '-' || s[start] == '*' || s[start] == '+') && bare {
        1
    } else {
        let digits = if digit_run(s, start) < 9 { digit_run(s, start) } else { 9 };
        let ordered = digits > 0 && start + digits < s.len() && (s[start + digits] == '.' || s[start
            + digits] == ')') && (start + digits + 1 >= s.len() || s[start + digits + 1] == ' ');
        if ordered {
            digits + 1
        } else {
            0
        }
    }
}

/// The block a line opens, before any fence is considered.
pub open spec fn classify_spec(s: Seq<char>) -> Block {
    if spec_indent(s) >= 4 {
        Block::Prose
    } else if spec_is_table_rule(s) || spec_is_thematic_break(s) {
        Block::Rule
    } else if spec_heading_level(s) is Some {
        Block::Heading(spec_heading_level(s).unwrap())
    } else if spec_quote_len(s) > 0 {
        Block::Quote(spec_quote_len(s) as usize)
    } else if spec_bullet_len(s) > 0 {
        Block::Bullet { at: spec_indent(s) as usize, len: spec_bullet_len(s) as usize }
    } else if spec_is_table_row(s) {
        Block::TableRow
    } else {
        Block::Prose
    }
}

/// The block `chars` opens. Fenced lines are classified by the markdown reader, which is the
/// only place that knows a fence is open.
pub fn classify(chars: &[char]) -> (b: Block)
    ensures
        b == classify_spec(chars@),
{
    if indent(chars) >= CODE_INDENT {
        return Block::Prose;
    }
    if is_table_rule(chars) || is_thematic_break(chars) {
        return Block::Rule;
    }
    if let Some(level) = heading_level(chars) {
        return Block::Heading(level);
    }
    let quote = quote_len(chars);
    if quote > 0 {
        return Block::Quote(quote);
    }
    let len = bullet_len(chars);
    if len > 0 {
        return Block::Bullet { at: indent(chars), len };
    }
    if is_table_row(chars) {
        Block::TableRow
    } else {
        Block::Prose
    }
}

/// Leading spaces, capped at [`CODE_INDENT`].
pub fn indent(chars: &[char]) -> (n: usize)
    ensures
        n == spec_indent(chars@),
        n <= chars@.len(),
        n <= 4,
{
    let mut n: usize = 0;
    while n < CODE_INDENT && n < chars.len() && chars[n] == ' '
        invariant
            n <= 4,
            n <= chars@.len(),
            run_len(chars@, 0, ' ') == n + run_len(chars@, n as int, ' '),
        decreases 4 - n,
    {
        n = n + 1;
    }
    n
}

/// A pipe-table row: starts with `|` once indented past any block marker.
pub fn is_table_row(chars: &[char]) -> (b: bool)
    ensures
        b == spec_is_table_row(chars@),
{
    let at = indent(chars);
    at < chars.len() && chars[at] == '|'
}

/// A `|---|:--:|` delimiter row, which carries no content at all.
pub fn is_table_rule(chars: &[char]) -> (b: bool)
    ensures
        b == spec_is_table_rule(chars@),
{
    is_table_row(chars) && all_scaffolding(chars)
}

/// Every character is a pipe, a dash, a colon, or a space.
pub fn all_scaffolding(chars: &[char]) -> (b: bool)
    ensures
        b == forall|k: int| 0 <= k < chars@.len() ==> is_scaffolding(#[trigger] chars@[k]),
{
    let mut i: usize = 0;
    while i < chars.len()
        invariant
            i <= chars.len(),
            forall|k: int| 0 <= k < i ==> is_scaffolding(#[trigger] chars@[k]),
        decreases chars.len() - i,
    {
        let c = chars[i];
        if !(c == '|' || c == '-' || c == ':' || c == ' ') {
            return false;
        }
        i = i + 1;
    }
    true
}

/// Three or more of the same `-`, `*`, or `_`, spaces allowed between and nothing else.
pub fn is_thematic_break(chars: &[char]) -> (b: bool)
    ensures
        b == spec_is_thematic_break(chars@),
{
    let at = indent(chars);
    if at >= chars.len() {
        return false;
    }
    let marker = chars[at];
    if !(marker == '-' || marker == '*' || marker == '_') {
        return false;
    }
    let mut seen: usize = 0;
    let mut i = at;
    while i < chars.len()
        invariant
            at <= i <= chars@.len(),
            at < chars@.len(),
            at == spec_indent(chars@),
            marker == chars@[at as int],
            seen <= i - at,
            count(chars@, at as int, marker) == seen + count(chars@, i as int, marker),
            forall|k: int| at <= k < i ==> (#[trigger] chars@[k] == marker || chars@[k] == ' '),
        decreases chars.len() - i,
    {
        let c = chars[i];
        if c == marker {
            seen = seen + 1;
        } else if c != ' ' {
            proof {
                let k = i as int;
                assert(!(chars@[k] == chars@[at as int] || chars@[k] == ' '));
            }
            return false;
        }
        i = i + 1;
    }
    seen >= 3
}

/// `#` count when the line is an ATX heading, else `None`.
pub fn heading_level(chars: &[char]) -> (r: Option<usize>)
    ensures
        r == spec_heading_level(chars@),
{
    let at = indent(chars);
    let mut end = at;
    while end < chars.len() && chars[end] == '#'
        invariant
            at <= end <= chars@.len(),
            run_len(chars@, at as int, '#') == (end - at) + run_len(chars@, end as int, '#'),
        decreases chars.len() - end,
    {
        end = end + 1;
    }
    let hashes = end - at;
    let followed = end >= chars.len() || chars[end] == ' ';
    if 1 <= hashes && hashes <= 6 && followed {
        Some(hashes)
    } else {
        None
    }
}

/// Characters a blockquote's marker takes, or 0 when the line is not one.
pub fn quote_len(chars: &[char]) -> (n: usize)
    ensures
        n == spec_quote_len(chars@),
        n <= chars@.len(),
{
    let at = indent(chars);
    if !(at < chars.len() && chars[at] == '>') {
        return 0;
    }
    let mut end = at;
    while end < chars.len() && (chars[end] == '>' || chars[end] == ' ')
        invariant
            at <= end <= chars@.len(),
            quote_run(chars@, at as int) == (end - at) + quote_run(chars@, end as int),
        decreases chars.len() - end,
    {
        end = end + 1;
    }
    end
}

/// Characters the list bullet takes, or 0 when the line has none.
pub fn bullet_len(chars: &[char]) -> (n: usize)
    ensures
        n == spec_bullet_len(chars@),
        spec_indent(chars@) + n <= chars@.len(),
{
    let start = indent(chars);
    if start < chars.len() && (chars[start] == '-' || chars[start] == '*' || chars[start] == '+')
        && (start + 1 >= chars.len() || chars[start + 1] == ' ') {
        return 1;
    }
    let mut end = start;
    while end < chars.len() && end - start < 9 && '0' <= chars[end] && chars[end] <= '9'
        invariant
            start <= end <= chars@.len(),
            end - start <= 9,
            digit_run(chars@, start as int) == (end - start) + digit_run(chars@, end as int),
        decreases chars.len() - end,
    {
        end = end + 1;
    }
    let digits = end - start;
    let ordered = digits > 0 && end < chars.len() && (chars[end] == '.' || chars[end] == ')') && (
    end + 1 >= chars.len() || chars[end + 1] == ' ');
    if ordered {
        digits + 1
    } else {
        0
    }
}

/// A line that opens, after fewer than four spaces, on `-`, `*` or `+` followed by a space or
/// the end of the line is a bullet whose marker is that one character — unless the line is a
/// thematic break, which holds three or more of the marker and nothing but spaces besides.
pub proof fn law_marker_opens_a_bullet(s: Seq<char>, start: int)
    requires
        0 <= start < 4,
        start < s.len(),
        forall|k: int| 0 <= k < start ==> s[k] == ' ',
        s[start] == '-' || s[start] == '*' || s[start] == '+',
        start + 1 == s.len() || s[start + 1] == ' ',
        (exists|k: int| start < k < s.len() && s[k] != s[start] && s[k] != ' ') || count(s, start, s[start]) < 3,
    ensures
        classify_spec(s) == (Block::Bullet { at: start as usize, len: 1 }),
{
    lemma_indent_is(s, start);
    assert(!spec_is_table_row(s));
    if exists|k: int| start < k < s.len() && s[k] != s[start] && s[k] != ' ' {
        let k = choose|k: int| start < k < s.len() && s[k] != s[start] && s[k] != ' ';
        assert(!(s[k] == s[start] || s[k] == ' '));
    }
    assert(!spec_is_thematic_break(s));
    assert(run_len(s, start, '#') == 0);
    assert(spec_heading_level(s) is None);
    assert(spec_quote_len(s) == 0);
    assert(spec_bullet_len(s) == 1);
}

/// A run of `c` from `k` up to `end`, where it stops, is that long.
proof fn lemma_run_exact(s: Seq<char>, k: int, end: int, c: char)
    requires
        0 <= k <= end <= s.len(),
        forall|j: int| k <= j < end ==> s[j] == c,
        end == s.len() || s[end] != c,
    ensures
        run_len(s, k, c) == end - k,
    decreases end - k,
{
    if k < end {
        lemma_run_exact(s, k + 1, end, c);
    }
}

/// Fewer than four leading spaces: the line's marker starts right after them.
proof fn lemma_indent_is(s: Seq<char>, start: int)
    requires
        0 <= start < 4,
        start < s.len(),
        s[start] != ' ',
        forall|k: int| 0 <= k < start ==> s[k] == ' ',
    ensures
        spec_indent(s) == start,
{
    lemma_run_exact(s, 0, start, ' ');
}

/// One to six `#` after fewer than four spaces, then a space or the end of the line, make a
/// heading of that level.
pub proof fn law_hashes_open_a_heading(s: Seq<char>, start: int, level: int)
    requires
        0 <= start < 4,
        1 <= level <= 6,
        start + level <= s.len(),
        forall|k: int| 0 <= k < start ==> s[k] == ' ',
        forall|k: int| start <= k < start + level ==> s[k] == '#',
        start + level == s.len() || s[start + level] == ' ',
    ensures
        classify_spec(s) == Block::Heading(level as usize),
{
    lemma_indent_is(s, start);
    lemma_run_exact(s, start, start + level, '#');
    assert(!spec_is_table_row(s));
    assert(!spec_is_thematic_break(s));
}

/// Seven or more `#` open no heading.
pub proof fn law_too_many_hashes_open_no_heading(s: Seq<char>, start: int)
    requires
        0 <= start < 4,
        start + 7 <= s.len(),
        forall|k: int| 0 <= k < start ==> s[k] == ' ',
        forall|k: int| start <= k < start + 7 ==> s[k] == '#',
    ensures
        !(classify_spec(s) is Heading),
{
    lemma_indent_is(s, start);
    assert(run_len(s, start, '#') >= 7) by {
        lemma_run_at_least(s, start, start + 7, '#');
    }
}

proof fn lemma_run_at_least(s: Seq<char>, k: int, end: int, c: char)
    requires
        0 <= k <= end <= s.len(),
        forall|j: int| k <= j < end ==> s[j] == c,
    ensures
        run_len(s, k, c) >= end - k,
    decreases end - k,
{
    if k < end {
        lemma_run_at_least(s, k + 1, end, c);
    }
}

proof fn lemma_digit_run_exact(s: Seq<char>, k: int, end: int)
    requires
        0 <= k <= end < s.len(),
        forall|j: int| k <= j < end ==> is_digit(#[trigger] s[j]),
        !is_digit(s[end]),
    ensures
        digit_run(s, k) == end - k,
    decreases end - k,
{
    if k < end {
        lemma_digit_run_exact(s, k + 1, end);
    }
}

/// One to nine digits after fewer than four spaces, then `.` or `)`, then a space or the end
/// of the line, make an ordered bullet whose marker is the digits and the dot.
pub proof fn law_digits_open_an_ordered_bullet(s: Seq<char>, start: int, digits: int)
    requires
        0 <= start < 4,
        1 <= digits <= 9,
        start + digits < s.len(),
        forall|k: int| 0 <= k < start ==> s[k] == ' ',
        forall|k: int| start <= k < start + digits ==> is_digit(#[trigger] s[k]),
        s[start + digits] == '.' || s[start + digits] == ')',
        start + digits + 1 == s.len() || s[start + digits + 1] == ' ',
    ensures
        classify_spec(s) == (Block::Bullet { at: start as usize, len: (digits + 1) as usize }),
{
    assert(is_digit(s[start]));
    lemma_indent_is(s, start);
    lemma_digit_run_exact(s, start, start + digits);
    assert(!spec_is_table_row(s));
    assert(!spec_is_thematic_break(s));
    assert(run_len(s, start, '#') == 0);
    assert(spec_heading_level(s) is None);
    assert(spec_quote_len(s) == 0);
    assert(spec_bullet_len(s) == digits + 1);
}

proof fn lemma_quote_run_exact(s: Seq<char>, k: int, end: int)
    requires
        0 <= k <= end <= s.len(),
        forall|j: int| k <= j < end ==> (#[trigger] s[j] == '>' || s[j] == ' '),
        end == s.len() || (s[end] != '>' && s[end] != ' '),
    ensures
        quote_run(s, k) == end - k,
    decreases end - k,
{
    if k < end {
        lemma_quote_run_exact(s, k + 1, end);
    }
}

/// A `>` after fewer than four spaces opens a blockquote whose marker runs over every `>` and
/// space that follow it: the whole nesting counts as one prefix.
pub proof fn law_angle_opens_a_quote(s: Seq<char>, start: int, end: int)
    requires
        0 <= start < 4,
        start < end <= s.len(),
        forall|k: int| 0 <= k < start ==> s[k] == ' ',
        s[start] == '>',
        forall|k: int| start <= k < end ==> (#[trigger] s[k] == '>' || s[k] == ' '),
        end == s.len() || (s[end] != '>' && s[end] != ' '),
    ensures
        classify_spec(s) == Block::Quote(end as usize),
{
    lemma_indent_is(s, start);
    lemma_quote_run_exact(s, start, end);
    assert(!spec_is_table_row(s));
    assert(!spec_is_thematic_break(s));
    assert(run_len(s, start, '#') == 0);
    assert(spec_heading_level(s) is None);
}

/// A line that opens on `|` after fewer than four spaces is a table row — or, when nothing in
/// it but bars, dashes, colons and spaces, the delimiter rule under a header.
pub proof fn law_bar_opens_a_table_row(s: Seq<char>, start: int)
    requires
        0 <= start < 4,
        start < s.len(),
        forall|k: int| 0 <= k < start ==> s[k] == ' ',
        s[start] == '|',
    ensures
        (forall|k: int| 0 <= k < s.len() ==> is_scaffolding(#[trigger] s[k])) ==> classify_spec(s) == Block::Rule,
        (exists|k: int| 0 <= k < s.len() && !is_scaffolding(#[trigger] s[k])) ==> classify_spec(s) == Block::TableRow,
{
    lemma_indent_is(s, start);
    assert(spec_is_table_row(s));
    assert(!spec_is_thematic_break(s));
    assert(run_len(s, start, '#') == 0);
    assert(spec_heading_level(s) is None);
    assert(spec_quote_len(s) == 0);
    assert(spec_bullet_len(s) == 0) by {
        assert(!is_digit(s[start]));
        assert(digit_run(s, start) == 0);
    }
}

/// Four or more leading spaces make indented code: no marker after them counts.
pub proof fn law_deep_indent_is_prose(s: Seq<char>)
    requires
        s.len() >= 4,
        forall|k: int| 0 <= k < 4 ==> s[k] == ' ',
    ensures
        classify_spec(s) == Block::Prose,
{
    lemma_run_at_least(s, 0, 4, ' ');
}

/// Three or more of one of `-`, `*` or `_` after fewer than four spaces, with nothing but spaces
/// between and after them, make a thematic break.
pub proof fn law_three_markers_break(s: Seq<char>, start: int)
    requires
        0 <= start < 4,
        start < s.len(),
        forall|k: int| 0 <= k < start ==> s[k] == ' ',
        s[start] == '-' || s[start] == '*' || s[start] == '_',
        forall|k: int| start <= k < s.len() ==> (#[trigger] s[k] == s[start] || s[k] == ' '),
        count(s, start, s[start]) >= 3,
    ensures
        classify_spec(s) == Block::Rule,
{
    lemma_indent_is(s, start);
}

} // verus!
