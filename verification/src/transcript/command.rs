//! Slash commands, unwrapped from the XML the agent stores them as.

use vstd::prelude::*;

use crate::text::{
    chars_of, find_seq, first_match, lemma_first_match, string_of, trim, trim_bounds, trim_end,
};
use crate::transcript::marks::slice_range;

verus! {

/// The contents of the first `<name>…</name>` element in `t`: what follows the first opening
/// tag, up to the first closing tag after it.
pub open spec fn tag_spec(t: Seq<char>, name: Seq<char>) -> Option<Seq<char>> {
    let open = seq!['<'] + name + seq!['>'];
    let close = seq!['<', '/'] + name + seq!['>'];
    match first_match(t, open, 0) {
        None => None,
        Some(k) => {
            let rest = t.skip(k + open.len());
            match first_match(rest, close, 0) {
                None => None,
                Some(j) => Some(rest.take(j)),
            }
        },
    }
}

/// The command line a wrapped prompt stands for: its trimmed name, a space, its trimmed
/// arguments, with no trailing space when there are none.
pub open spec fn unwrap_spec(t: Seq<char>) -> Option<Seq<char>> {
    match tag_spec(t, "command-name"@) {
        None => None,
        Some(name) => {
            let args = match tag_spec(t, "command-args"@) {
                Some(a) => a,
                None => Seq::empty(),
            };
            Some(trim_end(trim(name) + seq![' '] + trim(args)))
        },
    }
}

/// The contents of the first `<name>…</name>` element in `text`.
fn tag(text: &[char], name: &[char]) -> (r: Option<Vec<char>>)
    ensures
        match tag_spec(text@, name@) {
            Some(inner) => r matches Some(v) && v@ == inner,
            None => r is None,
        },
{
    let mut open: Vec<char> = Vec::new();
    open.push('<');
    let mut i: usize = 0;
    while i < name.len()
        invariant
            i <= name.len(),
            open@ == seq!['<'] + name@.take(i as int),
        decreases name.len() - i,
    {
        open.push(name[i]);
        proof {
            assert(name@.take(i + 1) =~= name@.take(i as int).push(name@[i as int]));
            assert(seq!['<'] + name@.take(i + 1) =~= (seq!['<'] + name@.take(i as int)).push(name@[i as int]));
        }
        i = i + 1;
    }
    let mut close: Vec<char> = Vec::new();
    close.push('<');
    close.push('/');
    let mut j: usize = 0;
    while j < name.len()
        invariant
            j <= name.len(),
            close@ == seq!['<', '/'] + name@.take(j as int),
        decreases name.len() - j,
    {
        close.push(name[j]);
        proof {
            assert(name@.take(j + 1) =~= name@.take(j as int).push(name@[j as int]));
            assert(seq!['<', '/'] + name@.take(j + 1) =~= (seq!['<', '/'] + name@.take(j as int)).push(name@[j as int]));
        }
        j = j + 1;
    }
    open.push('>');
    close.push('>');
    proof {
        assert(name@.take(name@.len() as int) =~= name@);
        assert(open@ =~= seq!['<'] + name@ + seq!['>']);
        assert(close@ =~= seq!['<', '/'] + name@ + seq!['>']);
    }
    let k = match find_seq(text, &open, 0) {
        Some(k) => k,
        None => return None,
    };
    proof {
        lemma_first_match(text@, open@, 0);
        assert(first_match(text@, open@, 0) == Some(k as int));
        assert(crate::text::matches_at(text@, k as int, open@));
    }
    let n = text.len();
    assert(k + open@.len() <= n);
    let rest = slice_range(text, k + open.len(), n);
    assert(rest@ =~= text@.skip(k + open@.len()));
    let end = match find_seq(&rest, &close, 0) {
        Some(end) => end,
        None => return None,
    };
    proof {
        lemma_first_match(rest@, close@, 0);
    }
    let inner = slice_range(&rest, 0, end);
    assert(inner@ =~= rest@.take(end as int));
    Some(inner)
}

/// The command a wrapped prompt stands for, or `None` when `text` is an ordinary prompt.
/// Everything outside the tags is dropped with them — the caveat block, the empty stdout.
pub fn unwrap(text: &str) -> (r: Option<String>)
    ensures
        match unwrap_spec(text@) {
            Some(line) => r matches Some(s) && s@ == line,
            None => r is None,
        },
{
    let chars = chars_of(text);
    let name_tag = chars_of("command-name");
    let args_tag = chars_of("command-args");
    let name = match tag(&chars, &name_tag) {
        Some(name) => name,
        None => return None,
    };
    let args = match tag(&chars, &args_tag) {
        Some(args) => args,
        None => Vec::new(),
    };
    let (na, nb) = trim_bounds(&name, 0, name.len());
    let (aa, ab) = trim_bounds(&args, 0, args.len());
    assert(name@.subrange(0, name@.len() as int) =~= name@);
    assert(args@.subrange(0, args@.len() as int) =~= args@);
    let mut line = slice_range(&name, na, nb);
    line.push(' ');
    let mut i = aa;
    while i < ab
        invariant
            aa <= i <= ab <= args@.len(),
            line@ == trim(name@) + seq![' '] + args@.subrange(aa as int, i as int),
        decreases ab - i,
    {
        line.push(args[i]);
        proof {
            assert(args@.subrange(aa as int, i + 1) =~= args@.subrange(aa as int, i as int).push(args@[i as int]));
        }
        i = i + 1;
    }
    let (_, end) = crate::text::trim_end_bound(&line);
    let kept = slice_range(&line, 0, end);
    proof {
        let args_v = if tag_spec(text@, "command-args"@) is Some { args@ } else { Seq::<char>::empty() };
        assert(args@ == args_v);
    }
    Some(string_of(&kept))
}

} // verus!
