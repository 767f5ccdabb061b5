//! Identifier resolution.
//!
//! Any "identifier" argument accepts a full UUID, a shortened UUID, or a
//! name. Resolution precedence: exact UUID match first, then exact name
//! match, then UUID-prefix match (a shortened UUID is by construction a
//! prefix of its full UUID, so this covers shortened UUIDs and any other
//! unambiguous prefix). A prefix matching more than one candidate is
//! ambiguous and fails.
use vstd::prelude::*;
use crate::bytes::{bytes_eq, bytes_is_prefix, is_prefix_of};

verus! {

/// A failure to resolve an identifier.
#[derive(Clone, Copy, PartialEq, Eq, Structural, Debug)]
pub enum LookupError {
    /// No candidate's UUID, name, or UUID prefix matched.
    NotFoundError,
    /// The identifier is a UUID prefix of two or more distinct candidates.
    AmbiguousIdentifierError,
}

/// A record that can be looked up by UUID or name.
pub trait HasIdentity {
    /// The record's UUID.
    spec fn uuid_model(&self) -> Seq<u8>;

    /// The record's name.
    spec fn name_model(&self) -> Seq<u8>;

    /// Whether the record is live (resolvable); historical records are not.
    spec fn is_live(&self) -> bool;

    fn uuid_ref(&self) -> (r: &Vec<u8>)
        ensures
            r@ == self.uuid_model(),
    ;

    fn name_ref(&self) -> (r: &Vec<u8>)
        ensures
            r@ == self.name_model(),
    ;

    fn live(&self) -> (r: bool)
        ensures
            r == self.is_live(),
    ;
}

/// Candidate `i` is live and its UUID equals the identifier.
pub open spec fn uuid_match_at<T: HasIdentity>(records: Seq<T>, q: Seq<u8>, i: int) -> bool {
    0 <= i < records.len() && records[i].is_live() && records[i].uuid_model() == q
}

/// Candidate `i` is live and its name equals the identifier.
pub open spec fn name_match_at<T: HasIdentity>(records: Seq<T>, q: Seq<u8>, i: int) -> bool {
    0 <= i < records.len() && records[i].is_live() && records[i].name_model() == q
}

/// Candidate `i` is live and the identifier is a prefix of its UUID.
pub open spec fn prefix_match_at<T: HasIdentity>(records: Seq<T>, q: Seq<u8>, i: int) -> bool {
    0 <= i < records.len() && records[i].is_live() && is_prefix_of(q, records[i].uuid_model())
}

/// The identifier resolves to exactly one candidate by UUID prefix.
pub open spec fn unique_prefix_match<T: HasIdentity>(records: Seq<T>, q: Seq<u8>, i: int) -> bool {
    prefix_match_at(records, q, i) && (forall|j: int|
        prefix_match_at(records, q, j) ==> j == i)
}

/// The identifier is a UUID prefix of two or more distinct candidates.
pub open spec fn ambiguous_prefix<T: HasIdentity>(records: Seq<T>, q: Seq<u8>) -> bool {
    exists|i: int, j: int| i != j && prefix_match_at(records, q, i) && prefix_match_at(records, q, j)
}

/// Nothing matches the identifier in any of the three ways.
pub open spec fn no_match<T: HasIdentity>(records: Seq<T>, q: Seq<u8>) -> bool {
    forall|i: int|
        !uuid_match_at(records, q, i) && !name_match_at(records, q, i) && !prefix_match_at(
            records,
            q,
            i,
        )
}

/// What a successful resolution returns: the first exact UUID match if any;
/// otherwise the first exact name match if any; otherwise the unique
/// UUID-prefix match.
pub open spec fn resolves_to<T: HasIdentity>(records: Seq<T>, q: Seq<u8>, i: int) -> bool {
    if exists|k: int| uuid_match_at(records, q, k) {
        uuid_match_at(records, q, i) && (forall|j: int| 0 <= j < i ==> !uuid_match_at(records, q, j))
    } else if exists|k: int| name_match_at(records, q, k) {
        name_match_at(records, q, i) && (forall|j: int| 0 <= j < i ==> !name_match_at(records, q, j))
    } else {
        unique_prefix_match(records, q, i)
    }
}

/// Indexes of every live record whose UUID the identifier is a prefix of,
/// in registry order: the candidate list an ambiguous-identifier failure
/// reports so a caller can disambiguate.
pub fn prefix_candidates<T: HasIdentity>(records: &Vec<T>, identifier: &Vec<u8>) -> (r: Vec<usize>)
    ensures
        forall|k: int|
            0 <= k < r@.len() ==> prefix_match_at(records@, identifier@, (#[trigger] r@[k]) as int),
        forall|i: int|
            0 <= i < records@.len() && prefix_match_at(records@, identifier@, i) ==> exists|k: int|
                0 <= k < r@.len() && r@[k] == i,
        forall|k1: int, k2: int| 0 <= k1 < k2 < r@.len() ==> r@[k1] < r@[k2],
{
    let mut r: Vec<usize> = Vec::new();
    let mut i: usize = 0;
    while i < records.len()
        invariant
            i <= records@.len(),
            forall|k: int|
                0 <= k < r@.len() ==> (#[trigger] r@[k]) < i && prefix_match_at(
                    records@,
                    identifier@,
                    r@[k] as int,
                ),
            forall|j: int|
                0 <= j < i && prefix_match_at(records@, identifier@, j) ==> exists|k: int|
                    0 <= k < r@.len() && r@[k] == j,
            forall|k1: int, k2: int| 0 <= k1 < k2 < r@.len() ==> r@[k1] < r@[k2],
        decreases records@.len() - i,
    {
        let ghost pre = r@;
        if records[i].live() && bytes_is_prefix(identifier, records[i].uuid_ref()) {
            r.push(i);
        }
        proof {
            assert forall|j: int|
                0 <= j < i + 1 && prefix_match_at(records@, identifier@, j) implies exists|k: int|
                0 <= k < r@.len() && r@[k] == j by {
                if j == i {
                    assert(r@[r@.len() - 1] == i);
                } else {
                    let k = choose|k: int| 0 <= k < pre.len() && pre[k] == j;
                    assert(r@[k] == j);
                }
            }
        }
        i = i + 1;
    }
    r
}

/// Resolve an identifier against the live candidates in `records`, with
/// precedence exact UUID, then exact name, then unique UUID prefix.
pub fn resolve<T: HasIdentity>(records: &Vec<T>, identifier: &Vec<u8>) -> (r: Result<
    usize,
    LookupError,
>)
    ensures
        r matches Ok(i) ==> resolves_to(records@, identifier@, i as int),
        r == Err::<usize, LookupError>(LookupError::AmbiguousIdentifierError) <==> (forall|i: int|
            !uuid_match_at(records@, identifier@, i)) && (forall|i: int|
            !name_match_at(records@, identifier@, i)) && ambiguous_prefix(records@, identifier@),
        r == Err::<usize, LookupError>(LookupError::NotFoundError) <==> no_match(
            records@,
            identifier@,
        ),
        r is Ok <==> !no_match(records@, identifier@) && !((forall|i: int|
            !uuid_match_at(records@, identifier@, i)) && (forall|i: int|
            !name_match_at(records@, identifier@, i)) && ambiguous_prefix(records@, identifier@)),
{
    let ghost rs = records@;
    let ghost q = identifier@;
    let n = records.len();
    let mut i: usize = 0;
    while i < n
        invariant
            n == rs.len(),
            i <= n,
            q == identifier@,
            rs == records@,
            forall|j: int| 0 <= j < i ==> !uuid_match_at(rs, q, j),
        decreases n - i,
    {
        if records[i].live() && bytes_eq(records[i].uuid_ref(), identifier) {
            assert(uuid_match_at(rs, q, i as int));
            return Ok(i);
        }
        i = i + 1;
    }
    let mut i: usize = 0;
    while i < n
        invariant
            n == rs.len(),
            i <= n,
            q == identifier@,
            rs == records@,
            forall|j: int| !uuid_match_at(rs, q, j),
            forall|j: int| 0 <= j < i ==> !name_match_at(rs, q, j),
        decreases n - i,
    {
        if records[i].live() && bytes_eq(records[i].name_ref(), identifier) {
            assert(name_match_at(rs, q, i as int));
            return Ok(i);
        }
        i = i + 1;
    }
    let mut found: Option<usize> = None;
    let mut i: usize = 0;
    while i < n
        invariant
            n == rs.len(),
            i <= n,
            q == identifier@,
            rs == records@,
            forall|j: int| !uuid_match_at(rs, q, j),
            forall|j: int| !name_match_at(rs, q, j),
            match found {
                Some(f) => prefix_match_at(rs, q, f as int) && f < i && (forall|j: int|
                    0 <= j < i && j != f ==> !prefix_match_at(rs, q, j)),
                None => forall|j: int| 0 <= j < i ==> !prefix_match_at(rs, q, j),
            },
        decreases n - i,
    {
        if records[i].live() && bytes_is_prefix(identifier, records[i].uuid_ref()) {
            assert(prefix_match_at(rs, q, i as int));
            match found {
                Some(f) => {
                    assert(i as int != f as int);
                    assert(ambiguous_prefix(rs, q));
                    return Err(LookupError::AmbiguousIdentifierError);
                },
                None => {
                    found = Some(i);
                },
            }
        }
        i = i + 1;
    }
    match found {
        Some(f) => {
            assert(unique_prefix_match(rs, q, f as int));
            assert(!ambiguous_prefix(rs, q)) by {
                assert forall|a: int, b: int|
                    !(a != b && prefix_match_at(rs, q, a) && prefix_match_at(rs, q, b)) by {
                    if prefix_match_at(rs, q, a) && prefix_match_at(rs, q, b) {
                        assert(a == f as int && b == f as int);
                    }
                }
            }
            Ok(f)
        },
        None => {
            assert(no_match(rs, q));
            assert(!ambiguous_prefix(rs, q)) by {
                assert forall|a: int, b: int|
                    !(a != b && prefix_match_at(rs, q, a) && prefix_match_at(rs, q, b)) by {
                    if prefix_match_at(rs, q, a) {
                        assert(!prefix_match_at(rs, q, a));
                    }
                }
            }
            Err(LookupError::NotFoundError)
        },
    }
}

} // verus!
