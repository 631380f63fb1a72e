//! The session uuid an agent reports, which names its transcript file.

use vstd::prelude::*;

use crate::text::{is_hex, string_of};

verus! {

/// A session uuid: `673dfc91-ee56-4884-a4ab-01fc543dabc8`.
///
/// Parsed, not merely wrapped: the value is joined into a filesystem path.
#[derive(Debug, PartialEq, Eq)]
pub struct SessionId(String);

/// Why a value is not a session id: the value as given.
#[derive(Debug, Clone, PartialEq, Eq)]
pub struct NotASession {
    pub value: String,
}

/// Positions of the four dashes between the five hex groups (8, 4, 4, 4, 12 long).
pub open spec fn is_dash_at(k: int) -> bool {
    k == 8 || k == 13 || k == 18 || k == 23
}

/// The five dash-separated groups of a uuid, each of hex digits only and 8, 4, 4, 4 and 12
/// long: 36 characters with the dashes in place and hex everywhere else.
pub open spec fn is_uuid(s: Seq<char>) -> bool {
    &&& s.len() == 36
    &&& forall|k: int|
        0 <= k < 36 ==> if is_dash_at(k) {
            #[trigger] s[k] == '-'
        } else {
            is_hex(s[k])
        }
}

/// A uuid names a file inside the directory it is looked up in and nowhere else: it holds no
/// path separator and no dot, so neither `..` nor `a/b` can get through.
pub proof fn law_uuid_names_no_path(s: Seq<char>)
    requires
        is_uuid(s),
    ensures
        forall|k: int| 0 <= k < s.len() ==> #[trigger] s[k] != '/' && s[k] != '\\' && s[k] != '.',
{
    assert forall|k: int| 0 <= k < s.len() implies #[trigger] s[k] != '/' && s[k] != '\\' && s[k] != '.' by {
        if !is_dash_at(k) {
            assert(is_hex(s[k]));
        }
    }
}

impl SessionId {
    pub closed spec fn value(&self) -> Seq<char> {
        self.0@
    }

    /// Only a uuid is ever a session id.
    #[verifier::type_invariant]
    spec fn shaped(&self) -> bool {
        is_uuid(self.0@)
    }

    pub fn as_str(&self) -> (s: &str)
        ensures
            s@ == self.value(),
            is_uuid(s@),
    {
        proof {
            use_type_invariant(self);
        }
        self.0.as_str()
    }

    /// The id `value` spells, or why it spells none.
    pub fn parse(value: &str) -> (r: Result<SessionId, NotASession>)
        ensures
            match r {
                Ok(id) => is_uuid(value@) && id.value() == value@,
                Err(e) => !is_uuid(value@) && e.value@ == value@,
            },
    {
        let chars = crate::text::chars_of(value);
        let owned = string_of(&chars);
        if !uuid_shaped(&chars) {
            return Err(NotASession { value: owned });
        }
        Ok(SessionId(owned))
    }
}

fn is_hex_exec(c: char) -> (b: bool)
    ensures
        b == is_hex(c),
{
    ('0' <= c && c <= '9') || ('a' <= c && c <= 'f') || ('A' <= c && c <= 'F')
}

fn uuid_shaped(s: &[char]) -> (b: bool)
    ensures
        b == is_uuid(s@),
{
    if s.len() != 36 {
        return false;
    }
    let mut k: usize = 0;
    while k < 36
        invariant
            s@.len() == 36,
            k <= 36,
            forall|j: int|
                0 <= j < k ==> if is_dash_at(j) {
                    #[trigger] s@[j] == '-'
                } else {
                    is_hex(s@[j])
                },
        decreases 36 - k,
    {
        let dash = k == 8 || k == 13 || k == 18 || k == 23;
        if dash {
            if s[k] != '-' {
                return false;
            }
        } else if !is_hex_exec(s[k]) {
            return false;
        }
        k = k + 1;
    }
    true
}

impl std::str::FromStr for SessionId {
    type Err = NotASession;

    /// The id `value` spells, or why it spells none — as `parse` reads it.
    fn from_str(value: &str) -> (r: Result<Self, NotASession>)
        ensures
            match r {
                Ok(id) => is_uuid(value@) && id.value() == value@,
                Err(e) => !is_uuid(value@) && e.value@ == value@,
            },
    {
        SessionId::parse(value)
    }
}

} // verus!
