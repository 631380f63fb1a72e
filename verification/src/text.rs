//! Character-level helpers shared by every module: strings seen as sequences of characters.

use vstd::prelude::*;

verus! {

/// `String::push` appends one character to the end of the string.
pub assume_specification[ String::push ](s: &mut String, ch: char)
    ensures
        final(s)@ == old(s)@.push(ch),
;

/// The characters of `s`, in order.
pub fn chars_of(s: &str) -> (out: Vec<char>)
    ensures
        out@ == s@,
{
    let mut out: Vec<char> = Vec::new();
    for c in it: s.chars()
        invariant
            out@ == it.seq().take(it.index() as int),
            it.seq() == s@,
    {
        out.push(c);
    }
    out
}

/// A string holding exactly `chars`.
pub fn string_of(chars: &[char]) -> (out: String)
    ensures
        out@ == chars@,
{
    let mut out = String::new();
    let mut i: usize = 0;
    while i < chars.len()
        invariant
            i <= chars.len(),
            out@ == chars@.take(i as int),
        decreases chars.len() - i,
    {
        out.push(chars[i]);
        proof {
            assert(chars@.take(i + 1) =~= chars@.take(i as int).push(chars@[i as int]));
        }
        i = i + 1;
    }
    proof {
        assert(chars@.take(chars@.len() as int) =~= chars@);
    }
    out
}

/// Appends `chars[from..to]` to `out`.
pub fn push_chars(out: &mut String, chars: &[char], from: usize, to: usize)
    requires
        from <= to <= chars.len(),
    ensures
        final(out)@ == old(out)@ + chars@.subrange(from as int, to as int),
{
    let mut i = from;
    while i < to
        invariant
            from <= i <= to <= chars.len(),
            out@ == old(out)@ + chars@.subrange(from as int, i as int),
        decreases to - i,
    {
        out.push(chars[i]);
        proof {
            assert(chars@.subrange(from as int, i + 1) =~= chars@.subrange(from as int, i as int).push(
                chars@[i as int],
            ));
        }
        i = i + 1;
    }
}

/// `n` copies of `c`.
pub open spec fn repeat(c: char, n: nat) -> Seq<char> {
    Seq::new(n, |_i: int| c)
}

/// Appends `n` copies of `c` to `out`.
pub fn push_repeat(out: &mut String, c: char, n: usize)
    ensures
        final(out)@ == old(out)@ + repeat(c, n as nat),
{
    let mut i: usize = 0;
    while i < n
        invariant
            i <= n,
            out@ == old(out)@ + repeat(c, i as nat),
        decreases n - i,
    {
        out.push(c);
        proof {
            assert(repeat(c, (i + 1) as nat) =~= repeat(c, i as nat).push(c));
        }
        i = i + 1;
    }
}

/// Unicode `White_Space`, the set `char::is_whitespace` answers for.
pub open spec fn is_ws(c: char) -> bool {
    ||| ('\t' <= c && c <= '\r')
    ||| c == ' '
    ||| c == '\u{85}'
    ||| c == '\u{a0}'
    ||| c == '\u{1680}'
    ||| ('\u{2000}' <= c && c <= '\u{200a}')
    ||| c == '\u{2028}'
    ||| c == '\u{2029}'
    ||| c == '\u{202f}'
    ||| c == '\u{205f}'
    ||| c == '\u{3000}'
}

pub fn is_whitespace(c: char) -> (b: bool)
    ensures
        b == is_ws(c),
{
    ('\t' <= c && c <= '\r') || c == ' ' || c == '\u{85}' || c == '\u{a0}' || c == '\u{1680}' || (
    '\u{2000}' <= c && c <= '\u{200a}') || c == '\u{2028}' || c == '\u{2029}' || c == '\u{202f}'
        || c == '\u{205f}' || c == '\u{3000}'
}

pub open spec fn is_digit(c: char) -> bool {
    '0' <= c && c <= '9'
}

pub open spec fn is_alnum(c: char) -> bool {
    is_digit(c) || ('a' <= c && c <= 'z') || ('A' <= c && c <= 'Z')
}

pub open spec fn is_hex(c: char) -> bool {
    is_digit(c) || ('a' <= c && c <= 'f') || ('A' <= c && c <= 'F')
}

/// How many whitespace characters run from `i` on.
pub open spec fn lead_ws(s: Seq<char>, i: int) -> nat
    decreases s.len() - i,
{
    if 0 <= i < s.len() && is_ws(s[i]) {
        1 + lead_ws(s, i + 1)
    } else {
        0
    }
}

/// How many whitespace characters run back from just before `j`.
pub open spec fn trail_ws(s: Seq<char>, j: int) -> nat
    decreases j,
{
    if 0 < j <= s.len() && is_ws(s[j - 1]) {
        1 + trail_ws(s, j - 1)
    } else {
        0
    }
}

/// `str::trim_start`.
pub open spec fn trim_start(s: Seq<char>) -> Seq<char> {
    s.skip(lead_ws(s, 0) as int)
}

/// `str::trim_end`.
pub open spec fn trim_end(s: Seq<char>) -> Seq<char> {
    s.take(s.len() - trail_ws(s, s.len() as int))
}

/// `str::trim`: both ends at once; a string of whitespace alone trims to nothing.
pub open spec fn trim(s: Seq<char>) -> Seq<char> {
    if lead_ws(s, 0) == s.len() {
        Seq::empty()
    } else {
        s.subrange(lead_ws(s, 0) as int, s.len() - trail_ws(s, s.len() as int))
    }
}

pub proof fn lemma_lead_ws_bound(s: Seq<char>, i: int)
    requires
        0 <= i <= s.len(),
    ensures
        i + lead_ws(s, i) <= s.len(),
        forall|k: int| i <= k < i + lead_ws(s, i) ==> is_ws(#[trigger] s[k]),
        i + lead_ws(s, i) < s.len() ==> !is_ws(s[i + lead_ws(s, i)]),
    decreases s.len() - i,
{
    if i < s.len() && is_ws(s[i]) {
        lemma_lead_ws_bound(s, i + 1);
    }
}

pub proof fn lemma_trail_ws_bound(s: Seq<char>, j: int)
    requires
        0 <= j <= s.len(),
    ensures
        trail_ws(s, j) <= j,
        forall|k: int| j - trail_ws(s, j) <= k < j ==> is_ws(#[trigger] s[k]),
        trail_ws(s, j) < j ==> !is_ws(s[j - trail_ws(s, j) - 1]),
    decreases j,
{
    if 0 < j && is_ws(s[j - 1]) {
        lemma_trail_ws_bound(s, j - 1);
    }
}

/// Characters of leading whitespace in `s[from..to]`.
pub fn count_lead_ws(s: &[char], from: usize, to: usize) -> (n: usize)
    requires
        from <= to <= s.len(),
    ensures
        n == lead_ws(s@.subrange(from as int, to as int), 0),
        from + n <= to,
{
    let ghost t = s@.subrange(from as int, to as int);
    let mut i = from;
    while i < to && is_whitespace(s[i])
        invariant
            from <= i <= to <= s.len(),
            t == s@.subrange(from as int, to as int),
            lead_ws(t, 0) == (i - from) + lead_ws(t, i - from),
        decreases to - i,
    {
        assert(t[i - from] == s@[i as int]);
        i = i + 1;
    }
    proof {
        if i < to {
            assert(t[i - from] == s@[i as int]);
        }
    }
    i - from
}

/// Characters of trailing whitespace in `s[from..to]`.
pub fn count_trail_ws(s: &[char], from: usize, to: usize) -> (n: usize)
    requires
        from <= to <= s.len(),
    ensures
        n == trail_ws(s@.subrange(from as int, to as int), to - from),
        n <= to - from,
{
    let ghost t = s@.subrange(from as int, to as int);
    let mut j = to;
    while j > from && is_whitespace(s[j - 1])
        invariant
            from <= j <= to <= s.len(),
            t == s@.subrange(from as int, to as int),
            trail_ws(t, to - from) == (to - j) + trail_ws(t, j - from),
        decreases j - from,
    {
        assert(t[j - from - 1] == s@[j - 1]);
        j = j - 1;
    }
    proof {
        if j > from {
            assert(t[j - from - 1] == s@[j - 1]);
        }
    }
    to - j
}

/// Where `s[from..to]` trims to: the bounds of `trim` within `s`.
pub fn trim_bounds(s: &[char], from: usize, to: usize) -> (r: (usize, usize))
    requires
        from <= to <= s.len(),
    ensures
        from <= r.0 <= r.1 <= to,
        s@.subrange(r.0 as int, r.1 as int) == trim(s@.subrange(from as int, to as int)),
{
    let ghost t = s@.subrange(from as int, to as int);
    let lead = count_lead_ws(s, from, to);
    if lead == to - from {
        assert(s@.subrange((from + lead) as int, (from + lead) as int) =~= Seq::<char>::empty());
        return (from + lead, from + lead);
    }
    let trail = count_trail_ws(s, from, to);
    proof {
        lemma_lead_ws_bound(t, 0);
        lemma_trail_ws_bound(t, t.len() as int);
        if lead + trail > to - from {
            // the first non-space character would be both kept and trimmed
            assert(!is_ws(t[lead as int]));
            assert(is_ws(t[lead as int]));
        }
        assert(s@.subrange((from + lead) as int, (to - trail) as int) =~= t.subrange(
            lead as int,
            t.len() - trail,
        ));
    }
    (from + lead, to - trail)
}

/// Where `s` ends once trailing whitespace is dropped: `s[0..end]` is `trim_end(s)`.
pub fn trim_end_bound(s: &[char]) -> (r: (usize, usize))
    ensures
        r.0 == 0,
        r.1 <= s@.len(),
        s@.subrange(0, r.1 as int) == trim_end(s@),
{
    let trail = count_trail_ws(s, 0, s.len());
    assert(s@.subrange(0, s@.len() as int) =~= s@);
    assert(s@.subrange(0, (s.len() - trail) as int) =~= s@.take(s@.len() - trail));
    (0, s.len() - trail)
}

/// `p` occurs in `s` starting at `k`.
pub open spec fn matches_at(s: Seq<char>, k: int, p: Seq<char>) -> bool {
    0 <= k && k + p.len() <= s.len() && s.subrange(k, k + p.len()) == p
}

/// The leftmost occurrence of `p` in `s` at or after `from`.
pub open spec fn first_match(s: Seq<char>, p: Seq<char>, from: int) -> Option<int>
    decreases s.len() + 1 - from,
{
    if from < 0 || from + p.len() > s.len() {
        None
    } else if matches_at(s, from, p) {
        Some(from)
    } else {
        first_match(s, p, from + 1)
    }
}

pub proof fn lemma_first_match(s: Seq<char>, p: Seq<char>, from: int)
    requires
        0 <= from,
    ensures
        first_match(s, p, from) matches Some(k) ==> from <= k && matches_at(s, k, p) && forall|
            j: int,
        | from <= j < k ==> !matches_at(s, j, p),
        first_match(s, p, from) is None ==> forall|j: int| from <= j ==> !matches_at(s, j, p),
    decreases s.len() + 1 - from,
{
    if from + p.len() <= s.len() && !matches_at(s, from, p) {
        lemma_first_match(s, p, from + 1);
    }
}

/// Whether `p` occurs at `s[k..]`.
pub fn matches_at_exec(s: &[char], k: usize, p: &[char]) -> (b: bool)
    ensures
        b == matches_at(s@, k as int, p@),
{
    if k > s.len() || p.len() > s.len() - k {
        return false;
    }
    let mut i: usize = 0;
    while i < p.len()
        invariant
            k + p.len() <= s.len(),
            i <= p.len(),
            forall|j: int| 0 <= j < i ==> s@[k + j] == p@[j],
        decreases p.len() - i,
    {
        if s[k + i] != p[i] {
            assert(s@.subrange(k as int, k + p@.len())[i as int] != p@[i as int]);
            return false;
        }
        i = i + 1;
    }
    assert(s@.subrange(k as int, k + p@.len()) =~= p@);
    true
}

/// The leftmost occurrence of `p` in `s` at or after `from`.
pub fn find_seq(s: &[char], p: &[char], from: usize) -> (r: Option<usize>)
    ensures
        match r {
            Some(k) => first_match(s@, p@, from as int) == Some(k as int),
            None => first_match(s@, p@, from as int) is None,
        },
{
    let mut k = from;
    while k <= s.len() && p.len() <= s.len() - k
        invariant
            from <= k,
            first_match(s@, p@, from as int) == first_match(s@, p@, k as int),
        decreases s.len() + 1 - k,
    {
        if p.len() == 0 {
            assert(s@.subrange(k as int, k as int) =~= p@);
        }
        if matches_at_exec(s, k, p) {
            return Some(k);
        }
        k = k + 1;
    }
    None
}

/// Whether `p` occurs anywhere in `s`.
pub open spec fn contains(s: Seq<char>, p: Seq<char>) -> bool {
    exists|k: int| matches_at(s, k, p)
}

pub fn contains_exec(s: &[char], p: &[char]) -> (b: bool)
    ensures
        b == contains(s@, p@),
{
    let r = find_seq(s, p, 0);
    proof {
        lemma_first_match(s@, p@, 0);
    }
    r.is_some()
}

/// Whether any character of `s[from..to]` is whitespace.
pub fn any_whitespace(s: &[char], from: usize, to: usize) -> (b: bool)
    requires
        from <= to <= s.len(),
    ensures
        b == exists|k: int| from <= k < to && is_ws(#[trigger] s@[k]),
{
    let mut i = from;
    while i < to
        invariant
            from <= i <= to <= s.len(),
            forall|k: int| from <= k < i ==> !is_ws(#[trigger] s@[k]),
        decreases to - i,
    {
        if is_whitespace(s[i]) {
            return true;
        }
        i = i + 1;
    }
    false
}


/// `s` with its leading and trailing whitespace dropped.
pub fn trimmed(s: &str) -> (out: String)
    ensures
        out@ == trim(s@),
{
    let chars = chars_of(s);
    let (a, b) = trim_bounds(&chars, 0, chars.len());
    assert(chars@.subrange(0, chars@.len() as int) =~= chars@);
    let mut out = String::new();
    push_chars(&mut out, &chars, a, b);
    assert(out@ =~= trim(s@));
    out
}

/// The decimal digit for `d`, which is below ten.
pub open spec fn digit(d: int) -> char {
    if d == 0 {
        '0'
    } else if d == 1 {
        '1'
    } else if d == 2 {
        '2'
    } else if d == 3 {
        '3'
    } else if d == 4 {
        '4'
    } else if d == 5 {
        '5'
    } else if d == 6 {
        '6'
    } else if d == 7 {
        '7'
    } else if d == 8 {
        '8'
    } else {
        '9'
    }
}

/// `n` written in decimal, without leading zeros.
pub open spec fn decimal(n: nat) -> Seq<char>
    decreases n,
{
    if n < 10 {
        seq![digit(n as int)]
    } else {
        decimal(n / 10).push(digit((n % 10) as int))
    }
}

/// Appends `n`, written in decimal, to `out`.
pub fn push_decimal(out: &mut String, n: usize)
    ensures
        final(out)@ == old(out)@ + decimal(n as nat),
    decreases n,
{
    if n >= 10 {
        push_decimal(out, n / 10);
    }
    let d = n % 10;
    let c = if d == 0 {
        '0'
    } else if d == 1 {
        '1'
    } else if d == 2 {
        '2'
    } else if d == 3 {
        '3'
    } else if d == 4 {
        '4'
    } else if d == 5 {
        '5'
    } else if d == 6 {
        '6'
    } else if d == 7 {
        '7'
    } else if d == 8 {
        '8'
    } else {
        '9'
    };
    out.push(c);
    assert(out@ =~= old(out)@ + decimal(n as nat));
}

} // verus!
