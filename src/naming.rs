use vstd::prelude::*;
use vstd::std_specs::iter::IteratorSpec;

use crate::error::Error;

verus! {

/// The canonical (lower-case, hyphenated) text of a UUID, or `None` when the
/// text is not a UUID.
pub uninterp spec fn canonical_uuid_of(s: Seq<char>) -> Option<Seq<char>>;

/// The prefix that turns a canonical UUID into a nexus name.
pub open spec fn nexus_prefix() -> Seq<char> {
    seq!['n', 'e', 'x', 'u', 's', '-']
}

/// The name under which the nexus of UUID text `u` is registered.
pub open spec fn name_of_uuid(u: Seq<char>) -> Option<Seq<char>> {
    match canonical_uuid_of(u) {
        Some(c) => Some(nexus_prefix() + c),
        None => None,
    }
}

/// The UUID reported for a registered name: the name without the prefix,
/// or the whole name where it does not start with the prefix.
pub open spec fn uuid_of_name(n: Seq<char>) -> Seq<char> {
    if nexus_prefix().is_prefix_of(n) {
        n.skip(nexus_prefix().len() as int)
    } else {
        n
    }
}

/// A lower-case digit of base sixteen.
pub open spec fn is_lower_hex(c: char) -> bool {
    ('0' <= c && c <= '9') || ('a' <= c && c <= 'f')
}

/// The hyphenated form of a UUID: 36 characters, `-` at 8, 13, 18 and 23,
/// lower-case hexadecimal digits elsewhere.
pub open spec fn hyphenated_shape(c: Seq<char>) -> bool {
    &&& c.len() == 36
    &&& forall|k: int|
        0 <= k < 36 ==> if k == 8 || k == 13 || k == 18 || k == 23 {
            c[k] == '-'
        } else {
            is_lower_hex(#[trigger] c[k])
        }
}

/// Relies on uuid's `Uuid::parse_str` and its hyphenated formatting: the
/// result depends on the text alone. The parser takes only texts of 32, 36
/// or 45 characters; the formatter writes lower-case hexadecimal digits in
/// the hyphenated layout, which the parser reads back to the same UUID.
#[verifier::external_body]
fn canonical_uuid(s: &str) -> (r: Option<String>)
    ensures
        canonical_uuid_of(s@) == match r {
            Some(c) => Some(c@),
            None => None::<Seq<char>>,
        },
        !(s@.len() == 32 || s@.len() == 36 || s@.len() == 45) ==> r is None,
        r matches Some(c) ==> hyphenated_shape(c@),
        r matches Some(c) ==> canonical_uuid_of(c@) == Some(c@),
{
    uuid::Uuid::parse_str(s).ok().map(|u| u.to_hyphenated().to_string())
}

/// The characters of `s`.
pub(crate) fn chars_of(s: &str) -> (r: Vec<char>)
    ensures
        r@ == s@,
{
    broadcast use vstd::string::axiom_spec_iter, vstd::string::next_postcondition;

    let mut it = s.chars();
    let mut v: Vec<char> = Vec::new();
    loop
        invariant
            v@ + it.remaining() == s@,
            it.obeys_prophetic_iter_laws(),
            it.decrease() is Some,
        decreases it.decrease()->0,
    {
        match it.next() {
            Some(c) => {
                v.push(c);
                assert(v@ + it.remaining() =~= s@);
            },
            None => {
                assert(v@ =~= s@);
                return v;
            },
        }
    }
}

/// Relies on `String`'s `FromIterator<char>`.
#[verifier::external_body]
pub(crate) fn string_of(v: &[char]) -> (r: String)
    ensures
        r@ == v@,
{
    v.iter().collect()
}

fn prefix_chars() -> (r: Vec<char>)
    ensures
        r@ == nexus_prefix(),
{
    let r = vec!['n', 'e', 'x', 'u', 's', '-'];
    assert(r@ =~= nexus_prefix());
    r
}

/// The nexus name of the canonical UUID text `c`: `c` behind the prefix.
pub fn name_of_canonical(c: &str) -> (r: String)
    ensures
        r@ == nexus_prefix() + c@,
{
    let mut v = prefix_chars();
    let cv = chars_of(c);
    let mut i: usize = 0;
    while i < cv.len()
        invariant
            i <= cv@.len(),
            v@ == nexus_prefix() + cv@.take(i as int),
        decreases cv@.len() - i,
    {
        v.push(cv[i]);
        i += 1;
        assert(v@ =~= nexus_prefix() + cv@.take(i as int));
    }
    assert(cv@.take(cv@.len() as int) =~= cv@);
    string_of(v.as_slice())
}

/// Convert the UUID to a nexus name in the form of "nexus-{uuid}".
pub fn uuid_to_name(uuid: &str) -> (r: Result<String, Error>)
    ensures
        match r {
            Ok(n) => name_of_uuid(uuid@) == Some(n@),
            Err(e) => name_of_uuid(uuid@) is None && (e matches Error::InvalidUuid { uuid: u } && u@ == uuid@),
        },
{
    match canonical_uuid(uuid) {
        Some(c) => Ok(name_of_canonical(c.as_str())),
        None => Err(Error::InvalidUuid { uuid: uuid.to_owned() }),
    }
}

/// Convert a nexus name to the UUID it was made from. This never fails: a
/// name without the prefix was not made from a UUID and is returned whole.
pub fn name_to_uuid(name: &str) -> (r: String)
    ensures
        r@ == uuid_of_name(name@),
{
    let v = chars_of(name);
    let p = prefix_chars();
    if v.len() < p.len() {
        assert(!nexus_prefix().is_prefix_of(v@));
        return string_of(v.as_slice());
    }
    let mut i: usize = 0;
    while i < p.len()
        invariant
            i <= p@.len(),
            p@.len() <= v@.len(),
            p@ == nexus_prefix(),
            v@ == name@,
            forall|k: int| 0 <= k < i ==> p@[k] == v@[k],
        decreases p@.len() - i,
    {
        if p[i] != v[i] {
            assert(v@.subrange(0, p@.len() as int)[i as int] != p@[i as int]);
            assert(v@.subrange(0, p@.len() as int) != p@);
            assert(!nexus_prefix().is_prefix_of(v@));
            return string_of(v.as_slice());
        }
        i += 1;
    }
    let mut out: Vec<char> = Vec::new();
    let mut j: usize = p.len();
    while j < v.len()
        invariant
            p@.len() <= j <= v@.len(),
            p@ == nexus_prefix(),
            v@ == name@,
            forall|k: int| 0 <= k < p@.len() ==> p@[k] == v@[k],
            out@ == v@.subrange(p@.len() as int, j as int),
        decreases v@.len() - j,
    {
        out.push(v[j]);
        j += 1;
        assert(out@ =~= v@.subrange(p@.len() as int, j as int));
    }
    assert(out@ =~= v@.skip(p@.len() as int));
    string_of(out.as_slice())
}

/// A name made from a valid UUID maps back to that UUID's canonical text.
pub proof fn lemma_name_round_trip(u: Seq<char>)
    requires
        canonical_uuid_of(u) is Some,
    ensures
        uuid_of_name(name_of_uuid(u)->Some_0) == canonical_uuid_of(u)->Some_0,
{
    let c = canonical_uuid_of(u)->Some_0;
    let n = nexus_prefix() + c;
    assert(n.subrange(0, nexus_prefix().len() as int) =~= nexus_prefix());
    assert(nexus_prefix().is_prefix_of(n));
    assert(n.skip(nexus_prefix().len() as int) =~= c);
}

} // verus!
