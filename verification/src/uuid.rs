//! Deterministic UUID minting.
//!
//! Every durable entity (enclave, service, files artifact) is keyed by a
//! 32-character lowercase-hex UUID. UUIDs are minted from a per-registry
//! monotone counter: the low 16 nibbles of the counter, least significant
//! first, followed by 16 `'0'` fill characters. Minting from a counter keeps
//! allocation deterministic and makes freshness provable: distinct counters
//! yield distinct UUIDs.
use vstd::prelude::*;
use crate::bytes::{is_prefix_of, prefix_bytes};

verus! {

/// Length in bytes of a full UUID.
pub const UUID_LEN: usize = 32;

/// Initial length of a shortened UUID; lengthened on collision.
pub const SHORTENED_UUID_LEN: usize = 12;

/// The lowercase-hex character for a nibble value.
pub open spec fn hex_digit_spec(n: u8) -> u8 {
    if n < 10 {
        (48 + n) as u8
    } else {
        (87 + n) as u8
    }
}

/// Nibble `k` (least significant first) of `id`.
pub open spec fn nibble_of(id: u64, k: int) -> u8 {
    ((id >> ((4 * k) as u64)) & 0xf) as u8
}

/// The UUID minted for counter value `id`.
pub open spec fn uuid_of_id(id: u64) -> Seq<u8> {
    Seq::new(32, |k: int| if k < 16 {
        hex_digit_spec(nibble_of(id, k))
    } else {
        48u8
    })
}

fn hex_digit(n: u8) -> (r: u8)
    requires
        n < 16,
    ensures
        r == hex_digit_spec(n),
{
    if n < 10 {
        48 + n
    } else {
        87 + n
    }
}

/// Mint the UUID for counter value `id`.
pub fn mint_uuid(id: u64) -> (r: Vec<u8>)
    ensures
        r@ == uuid_of_id(id),
        r@.len() == UUID_LEN,
{
    let mut r: Vec<u8> = Vec::new();
    let mut k: usize = 0;
    while k < 16
        invariant
            k <= 16,
            r@.len() == k,
            forall|j: int| 0 <= j < k ==> r@[j] == hex_digit_spec(nibble_of(id, j)),
        decreases 16 - k,
    {
        let shift: u64 = 4 * (k as u64);
        let nib: u8 = ((id >> shift) & 0xf) as u8;
        proof {
            assert((id >> shift) & 0xf < 16) by (bit_vector);
        }
        r.push(hex_digit(nib));
        k = k + 1;
    }
    while k < 32
        invariant
            16 <= k <= 32,
            r@.len() == k,
            forall|j: int| 0 <= j < 16 ==> r@[j] == hex_digit_spec(nibble_of(id, j)),
            forall|j: int| 16 <= j < k ==> r@[j] == 48u8,
        decreases 32 - k,
    {
        r.push(48u8);
        k = k + 1;
    }
    proof {
        assert(r@ =~= uuid_of_id(id));
    }
    r
}

/// A record that carries a shortened UUID.
pub trait HasShortened {
    /// The record's shortened UUID.
    spec fn shortened_model(&self) -> Seq<u8>;

    fn shortened_ref(&self) -> (r: &Vec<u8>)
        ensures
            r@ == self.shortened_model(),
    ;
}

fn any_shortened_eq<T: HasShortened>(records: &Vec<T>, candidate: &Vec<u8>) -> (r: bool)
    ensures
        r == exists|i: int|
            0 <= i < records@.len() && (#[trigger] records@[i]).shortened_model() == candidate@,
{
    let mut i: usize = 0;
    while i < records.len()
        invariant
            i <= records@.len(),
            forall|j: int| 0 <= j < i ==> (#[trigger] records@[j]).shortened_model() != candidate@,
        decreases records@.len() - i,
    {
        if crate::bytes::bytes_eq(records[i].shortened_ref(), candidate) {
            return true;
        }
        i = i + 1;
    }
    false
}

/// Derive a shortened UUID for a freshly minted full UUID: the deterministic
/// prefix of the standard shortened length, lengthened one character at a
/// time until it differs from every shortened UUID already held.
pub fn shorten_uuid<T: HasShortened>(records: &Vec<T>, uuid: &Vec<u8>) -> (r: Vec<u8>)
    requires
        uuid@.len() == UUID_LEN,
        forall|i: int|
            0 <= i < records@.len() ==> (#[trigger] records@[i]).shortened_model() != uuid@,
    ensures
        is_prefix_of(r@, uuid@),
        SHORTENED_UUID_LEN <= r@.len() <= UUID_LEN,
        forall|i: int|
            0 <= i < records@.len() ==> (#[trigger] records@[i]).shortened_model() != r@,
{
    let mut len: usize = SHORTENED_UUID_LEN;
    loop
        invariant
            SHORTENED_UUID_LEN <= len <= UUID_LEN,
            uuid@.len() == UUID_LEN,
            forall|i: int|
                0 <= i < records@.len() ==> (#[trigger] records@[i]).shortened_model() != uuid@,
        decreases UUID_LEN - len,
    {
        let candidate = prefix_bytes(uuid, len);
        if !any_shortened_eq(records, &candidate) {
            proof {
                assert(candidate@ =~= uuid@.subrange(0, candidate@.len() as int));
            }
            return candidate;
        }
        proof {
            if len == UUID_LEN {
                assert(candidate@ =~= uuid@);
            }
        }
        len = len + 1;
    }
}

/// Hex digits of distinct nibble values are distinct.
proof fn lemma_hex_digit_injective(a: u8, b: u8)
    requires
        a < 16,
        b < 16,
        hex_digit_spec(a) == hex_digit_spec(b),
    ensures
        a == b,
{
}

/// Distinct counters mint distinct UUIDs.
pub proof fn lemma_uuid_injective(a: u64, b: u64)
    requires
        uuid_of_id(a) == uuid_of_id(b),
    ensures
        a == b,
{
    assert forall|k: int| 0 <= k < 16 implies nibble_of(a, k) == nibble_of(b, k) by {
        assert(uuid_of_id(a)[k] == hex_digit_spec(nibble_of(a, k)));
        assert(uuid_of_id(b)[k] == hex_digit_spec(nibble_of(b, k)));
        let s: u64 = (4 * k) as u64;
        assert((a >> s) & 0xf < 16) by (bit_vector);
        assert((b >> s) & 0xf < 16) by (bit_vector);
        lemma_hex_digit_injective(nibble_of(a, k), nibble_of(b, k));
    }
    assert(nibble_of(a, 0) == nibble_of(b, 0));
    assert(nibble_of(a, 1) == nibble_of(b, 1));
    assert(nibble_of(a, 2) == nibble_of(b, 2));
    assert(nibble_of(a, 3) == nibble_of(b, 3));
    assert(nibble_of(a, 4) == nibble_of(b, 4));
    assert(nibble_of(a, 5) == nibble_of(b, 5));
    assert(nibble_of(a, 6) == nibble_of(b, 6));
    assert(nibble_of(a, 7) == nibble_of(b, 7));
    assert(nibble_of(a, 8) == nibble_of(b, 8));
    assert(nibble_of(a, 9) == nibble_of(b, 9));
    assert(nibble_of(a, 10) == nibble_of(b, 10));
    assert(nibble_of(a, 11) == nibble_of(b, 11));
    assert(nibble_of(a, 12) == nibble_of(b, 12));
    assert(nibble_of(a, 13) == nibble_of(b, 13));
    assert(nibble_of(a, 14) == nibble_of(b, 14));
    assert(nibble_of(a, 15) == nibble_of(b, 15));
    assert(a == b) by (bit_vector)
        requires
            ((a >> 0u64) & 0xf) as u8 == ((b >> 0u64) & 0xf) as u8,
            ((a >> 4u64) & 0xf) as u8 == ((b >> 4u64) & 0xf) as u8,
            ((a >> 8u64) & 0xf) as u8 == ((b >> 8u64) & 0xf) as u8,
            ((a >> 12u64) & 0xf) as u8 == ((b >> 12u64) & 0xf) as u8,
            ((a >> 16u64) & 0xf) as u8 == ((b >> 16u64) & 0xf) as u8,
            ((a >> 20u64) & 0xf) as u8 == ((b >> 20u64) & 0xf) as u8,
            ((a >> 24u64) & 0xf) as u8 == ((b >> 24u64) & 0xf) as u8,
            ((a >> 28u64) & 0xf) as u8 == ((b >> 28u64) & 0xf) as u8,
            ((a >> 32u64) & 0xf) as u8 == ((b >> 32u64) & 0xf) as u8,
            ((a >> 36u64) & 0xf) as u8 == ((b >> 36u64) & 0xf) as u8,
            ((a >> 40u64) & 0xf) as u8 == ((b >> 40u64) & 0xf) as u8,
            ((a >> 44u64) & 0xf) as u8 == ((b >> 44u64) & 0xf) as u8,
            ((a >> 48u64) & 0xf) as u8 == ((b >> 48u64) & 0xf) as u8,
            ((a >> 52u64) & 0xf) as u8 == ((b >> 52u64) & 0xf) as u8,
            ((a >> 56u64) & 0xf) as u8 == ((b >> 56u64) & 0xf) as u8,
            ((a >> 60u64) & 0xf) as u8 == ((b >> 60u64) & 0xf) as u8,
    ;
}

} // verus!
