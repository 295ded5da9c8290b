//! Text form of runtime entity ids: `"<type_name>:<uuid>"`, with the UUID
//! in the `uuid` crate's hyphenated lowercase form.

use vstd::prelude::*;
use vstd::string::*;
use crate::ids::{EntityTyped, EntityUuid, NonNilUuid, RuntimeEntityId};
use crate::text::str_eq;

verus! {

/// The lowercase hex digit of a value below 16.
pub open spec fn hex_digit(n: int) -> char {
    if n == 0 { '0' } else if n == 1 { '1' } else if n == 2 { '2' } else if n == 3 { '3' }
    else if n == 4 { '4' } else if n == 5 { '5' } else if n == 6 { '6' } else if n == 7 { '7' }
    else if n == 8 { '8' } else if n == 9 { '9' } else if n == 10 { 'a' } else if n == 11 { 'b' }
    else if n == 12 { 'c' } else if n == 13 { 'd' } else if n == 14 { 'e' } else { 'f' }
}

/// The last `k` hex digits of `v`, most significant first.
pub open spec fn hex_digits(v: nat, k: nat) -> Seq<char>
    decreases k,
{
    if k == 0 {
        Seq::empty()
    } else {
        hex_digits(v / 16, (k - 1) as nat).push(hex_digit((v % 16) as int))
    }
}

/// The hyphenated lowercase text of a UUID: its 32 hex digits, most
/// significant first, in groups of 8, 4, 4, 4 and 12 joined by hyphens.
pub open spec fn uuid_text(v: u128) -> Seq<char> {
    let d = hex_digits(v as nat, 32);
    d.subrange(0, 8) + seq!['-'] + d.subrange(8, 12) + seq!['-'] + d.subrange(12, 16)
        + seq!['-'] + d.subrange(16, 20) + seq!['-'] + d.subrange(20, 32)
}

/// The UUID that the `uuid` crate parses from a text, if it parses.
pub uninterp spec fn uuid_parse(s: Seq<char>) -> Option<u128>;

/// Prints a UUID with `uuid::Uuid`'s `Display`.  Trusted: the result is the
/// hyphenated lowercase hex of the UUID's big-endian bytes, and `parse_str`
/// reads it back as the same UUID.
#[verifier::external_body]
fn uuid_to_text(v: u128) -> (r: String)
    ensures
        r@ == uuid_text(v),
        uuid_parse(r@) == Some(v),
{
    uuid::Uuid::from_u128(v).to_string()
}

/// Parses a UUID with `uuid::Uuid::parse_str`.  Trusted: the result is the
/// named parse of the argument.
#[verifier::external_body]
fn parse_uuid_text(s: &str) -> (r: Option<u128>)
    ensures
        r == uuid_parse(s@),
{
    match uuid::Uuid::parse_str(s) {
        Ok(u) => Some(u.as_u128()),
        Err(_) => None,
    }
}

/// The text form of an id.
pub open spec fn id_text(id: RuntimeEntityId) -> Seq<char> {
    id.spec_type_name()@ + ":"@ + uuid_text(id.spec_uuid()@)
}

/// Why a text is not an entity id.
#[derive(Debug, Clone)]
pub enum IdParseError {
    /// The text has no `':'` between type name and UUID.
    MissingSeparator,
    /// The part after the first `':'` is not a UUID.
    InvalidUuid,
    /// The UUID is the nil UUID.
    NilUuid,
    /// The type name is not one of the known entity types.
    UnknownEntityType(String),
}

/// What parsing a text comes to, in terms of views.
pub enum IdParseOutcome {
    /// No separator.
    Missing,
    /// The UUID part does not parse.
    BadUuid,
    /// The UUID is nil.
    Nil,
    /// The type part names no known type.
    Unknown(Seq<char>),
    /// An id: its UUID value and the known type name it names.
    Parsed(u128, &'static str),
}

/// `i` is the position of the first `':'` in `s`.
pub open spec fn first_colon(s: Seq<char>, i: int) -> bool {
    0 <= i < s.len() && s[i] == ':' && forall|j: int| 0 <= j < i ==> s[j] != ':'
}

/// `k` is the first position of `known` naming type `t`.
pub open spec fn first_known(known: Seq<&'static str>, t: Seq<char>, k: int) -> bool {
    0 <= k < known.len() && known[k]@ == t && forall|j: int| 0 <= j < k ==> known[j]@ != t
}

/// The outcome of parsing `raw` against the known type names: split at the
/// first `':'`, parse the UUID, reject nil, then look the type name up.
pub open spec fn parse_outcome(raw: Seq<char>, known: Seq<&'static str>) -> IdParseOutcome {
    if !(exists|i: int| first_colon(raw, i)) {
        IdParseOutcome::Missing
    } else {
        let i = choose|i: int| first_colon(raw, i);
        let t = raw.subrange(0, i);
        let u = raw.subrange(i + 1, raw.len() as int);
        match uuid_parse(u) {
            None => IdParseOutcome::BadUuid,
            Some(v) => if v == 0 {
                IdParseOutcome::Nil
            } else if exists|k: int| first_known(known, t, k) {
                IdParseOutcome::Parsed(v, known[choose|k: int| first_known(known, t, k)])
            } else {
                IdParseOutcome::Unknown(t)
            },
        }
    }
}

fn find_colon(s: &str) -> (r: Option<usize>)
    ensures
        match r {
            Some(i) => first_colon(s@, i as int),
            None => forall|j: int| 0 <= j < s@.len() ==> s@[j] != ':',
        },
{
    let n = s.unicode_len();
    let mut i: usize = 0;
    while i < n
        invariant
            n == s@.len(),
            i <= n,
            forall|j: int| 0 <= j < i ==> s@[j] != ':',
        decreases n - i,
    {
        if s.get_char(i) == ':' {
            return Some(i);
        }
        i = i + 1;
    }
    None
}

impl RuntimeEntityId {
    /// The text form `"<type_name>:<uuid>"`.
    pub fn id_string(&self) -> (r: String)
        ensures
            r@ == id_text(*self),
            uuid_parse(uuid_text(self.spec_uuid()@)) == Some(self.spec_uuid()@),
    {
        let mut s = String::from_str(self.entity_type_name());
        s.append(":");
        let u = uuid_to_text(self.entity_uuid().get());
        s.append(u.as_str());
        s
    }

    /// Read an id back from its text form.  The type name must be one of
    /// `known_types`; the id carries the matching entry.
    pub fn parse(raw: &str, known_types: &[&'static str]) -> (r: Result<
        RuntimeEntityId,
        IdParseError,
    >)
        ensures
            match r {
                Ok(id) => parse_outcome(raw@, known_types@) == IdParseOutcome::Parsed(
                    id.spec_uuid()@,
                    id.spec_type_name(),
                ),
                Err(IdParseError::MissingSeparator) => parse_outcome(raw@, known_types@)
                    == IdParseOutcome::Missing,
                Err(IdParseError::InvalidUuid) => parse_outcome(raw@, known_types@)
                    == IdParseOutcome::BadUuid,
                Err(IdParseError::NilUuid) => parse_outcome(raw@, known_types@)
                    == IdParseOutcome::Nil,
                Err(IdParseError::UnknownEntityType(t)) => parse_outcome(raw@, known_types@)
                    == IdParseOutcome::Unknown(t@),
            },
    {
        let n = raw.unicode_len();
        let i = match find_colon(raw) {
            Some(i) => i,
            None => {
                return Err(IdParseError::MissingSeparator);
            },
        };
        assert forall|i2: int| first_colon(raw@, i2) implies i2 == i by {
            if i2 < i {
                assert(raw@[i2] != ':');
            }
            if i2 > i {
                assert(raw@[i as int] != ':');
            }
        }
        let type_part = raw.substring_char(0, i);
        let uuid_part = raw.substring_char(i + 1, n);
        let v = match parse_uuid_text(uuid_part) {
            Some(v) => v,
            None => {
                return Err(IdParseError::InvalidUuid);
            },
        };
        let uuid = match NonNilUuid::new(v) {
            Some(u) => u,
            None => {
                return Err(IdParseError::NilUuid);
            },
        };
        let ghost outcome = if exists|k: int| first_known(known_types@, type_part@, k) {
            IdParseOutcome::Parsed(
                v,
                known_types@[choose|k: int| first_known(known_types@, type_part@, k)],
            )
        } else {
            IdParseOutcome::Unknown(type_part@)
        };
        assert(parse_outcome(raw@, known_types@) == outcome);
        let mut k: usize = 0;
        while k < known_types.len()
            invariant
                parse_outcome(raw@, known_types@) == outcome,
                outcome == (if exists|k: int| first_known(known_types@, type_part@, k) {
                    IdParseOutcome::Parsed(
                        v,
                        known_types@[choose|k: int| first_known(known_types@, type_part@, k)],
                    )
                } else {
                    IdParseOutcome::Unknown(type_part@)
                }),
                uuid@ == v,
                k <= known_types@.len(),
                forall|j: int| 0 <= j < k ==> known_types@[j]@ != type_part@,
            decreases known_types@.len() - k,
        {
            if str_eq(known_types[k], type_part) {
                assert(first_known(known_types@, type_part@, k as int));
                assert forall|k2: int| first_known(known_types@, type_part@, k2) implies k2
                    == k by {
                    if k2 < k {
                        assert(known_types@[k2]@ != type_part@);
                    }
                    if k2 > k {
                        assert(known_types@[k as int]@ == type_part@);
                    }
                }
                return Ok(RuntimeEntityId::new_unchecked(uuid, known_types[k]));
            }
            k = k + 1;
        }
        Err(IdParseError::UnknownEntityType(String::from_str(type_part)))
    }
}

/// Reading back the text of an id gives the id again, as long as its type
/// name is known and holds no `':'`: the parsed id has the same UUID and a
/// type name with the same text.
pub proof fn lemma_id_text_round_trip(id: RuntimeEntityId, known: Seq<&'static str>)
    requires
        exists|k: int| 0 <= k < known.len() && known[k]@ == id.spec_type_name()@,
        forall|j: int|
            0 <= j < id.spec_type_name()@.len() ==> #[trigger] id.spec_type_name()@[j] != ':',
        uuid_parse(uuid_text(id.spec_uuid()@)) == Some(id.spec_uuid()@),
        id.spec_uuid()@ != 0,
    ensures
        parse_outcome(id_text(id), known) matches IdParseOutcome::Parsed(v, t) && v
            == id.spec_uuid()@ && t@ == id.spec_type_name()@,
{
    reveal_strlit(":");
    let raw = id_text(id);
    let t = id.spec_type_name()@;
    let n = t.len() as int;
    assert(raw[n] == ':');
    assert forall|j: int| 0 <= j < n implies raw[j] != ':' by {
        assert(raw[j] == t[j]);
    }
    assert(first_colon(raw, n));
    assert forall|i2: int| first_colon(raw, i2) implies i2 == n by {
        if i2 > n {
            assert(raw[n] != ':');
        }
    }
    assert(raw.subrange(0, n) =~= t);
    assert(raw.subrange(n + 1, raw.len() as int) =~= uuid_text(id.spec_uuid()@));
    let k0 = choose|k: int| 0 <= k < known.len() && known[k]@ == t;
    lemma_first_known_exists(known, t, k0);
}

/// If some position of `known` names `t`, a first one does.
pub proof fn lemma_first_known_exists(known: Seq<&'static str>, t: Seq<char>, k: int)
    requires
        0 <= k < known.len(),
        known[k]@ == t,
    ensures
        exists|k2: int| first_known(known, t, k2),
    decreases k,
{
    if exists|j: int| 0 <= j < k && known[j]@ == t {
        let j = choose|j: int| 0 <= j < k && known[j]@ == t;
        lemma_first_known_exists(known, t, j);
    } else {
        assert(first_known(known, t, k));
    }
}

} // verus!
