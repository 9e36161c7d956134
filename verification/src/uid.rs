//! Identifiers of instances: random version-4 UUIDs, held as `u128`.

use uuid::Uuid;
use vstd::prelude::*;

verus! {

/// The bits that every random (version 4, RFC 4122 variant) UUID carries:
/// the version nibble is 4 and the two top variant bits are `10`.
pub open spec fn is_random_uuid(u: u128) -> bool {
    &&& u & 0xF000_0000_0000_0000_0000u128 == 0x4000_0000_0000_0000_0000u128
    &&& u & 0xC000_0000_0000_0000u128 == 0x8000_0000_0000_0000u128
}

/// Lower-case hexadecimal digit of `d` (meaningful for `d < 16`).
pub open spec fn hex_digit(d: u128) -> char {
    if d < 10 {
        crate::text::digit_char(d as nat)
    } else if d == 10 {
        'a'
    } else if d == 11 {
        'b'
    } else if d == 12 {
        'c'
    } else if d == 13 {
        'd'
    } else if d == 14 {
        'e'
    } else {
        'f'
    }
}

/// The `i`-th hexadecimal digit of `u`, counting from the most significant one.
pub open spec fn nibble(u: u128, i: int) -> u128 {
    (u >> ((31 - i) * 4) as u128) & 0xfu128
}

/// How many hyphens stand before position `p` of the hyphenated form.
pub open spec fn hyphens_before(p: int) -> int {
    if p < 8 {
        0
    } else if p < 13 {
        1
    } else if p < 18 {
        2
    } else if p < 23 {
        3
    } else {
        4
    }
}

/// The hyphenated lower-case form of a UUID (`8-4-4-4-12` hex digits),
/// its digits taken from the most significant end of `u`.
pub open spec fn hyphenated(u: u128) -> Seq<char> {
    Seq::new(
        36,
        |p: int|
            if p == 8 || p == 13 || p == 18 || p == 23 {
                '-'
            } else {
                hex_digit(nibble(u, p - hyphens_before(p)))
            },
    )
}

/// Calls `uuid::Uuid::new_v4` and returns the UUID as a `u128`
/// (`Uuid::as_u128`, big-endian). The value is random; what is claimed is
/// only that the version and variant bits are those `new_v4` sets.
#[verifier::external_body]
pub(crate) fn new_uid() -> (uid: u128)
    ensures
        is_random_uuid(uid),
{
    Uuid::new_v4().as_u128()
}

/// Calls `Display` of `uuid::Uuid` (`Uuid::from_u128(uid).to_string()`), and
/// claims the hyphenated lower-case form that it prints.
#[verifier::external_body]
pub(crate) fn uid_text(uid: u128) -> (s: String)
    ensures
        s@ == hyphenated(uid),
{
    Uuid::from_u128(uid).to_string()
}


proof fn lemma_xor_injective(b: u128, x: u128, y: u128)
    by (bit_vector)
    requires
        x != y,
    ensures
        b ^ x != b ^ y,
{
}

proof fn lemma_xor_keeps_uuid_bits(b: u128, j: u128)
    by (bit_vector)
    requires
        j < 0x4000_0000_0000_0000u128,
    ensures
        (b ^ j) & 0xF000_0000_0000_0000_0000u128 == b & 0xF000_0000_0000_0000_0000u128,
        (b ^ j) & 0xC000_0000_0000_0000u128 == b & 0xC000_0000_0000_0000u128,
{
}

fn holds_uid(v: &Vec<u128>, x: u128) -> (r: bool)
    ensures
        r == v@.contains(x),
{
    let n = v.len();
    for i in 0..n
        invariant
            n == v.len(),
            forall|j: int| 0 <= j < i ==> v@[j] != x,
    {
        if v[i] == x {
            return true;
        }
    }
    false
}

/// Draws a random identifier that `used` does not hold. When the drawn one
/// is taken, the next candidates differ from it in the low bits only, so
/// they keep its version and variant bits; among `used.len() + 1` distinct
/// candidates one is free.
pub(crate) fn new_uid_not_in(used: &Vec<u128>) -> (uid: u128)
    requires
        used@.len() < 0x4000_0000_0000_0000,
    ensures
        is_random_uuid(uid),
        !used@.contains(uid),
{
    let base = new_uid();
    let n = used.len() as u128;
    let mut i: u128 = 0;
    while i <= n
        invariant
            n == used@.len(),
            n < 0x4000_0000_0000_0000,
            i <= n + 1,
            is_random_uuid(base),
            forall|j: u128| j < i ==> used@.contains(#[trigger] (base ^ j)),
        decreases n + 1 - i,
    {
        let c = base ^ i;
        if !holds_uid(used, c) {
            proof {
                lemma_xor_keeps_uuid_bits(base, i);
            }
            return c;
        }
        i = i + 1;
    }
    proof {
        let cands = Seq::new((n + 1) as nat, |j: int| base ^ (j as u128));
        assert(cands.no_duplicates()) by {
            assert forall|a: int, b: int| 0 <= a < cands.len() && 0 <= b < cands.len() && a != b
                implies cands[a] != cands[b] by {
                lemma_xor_injective(base, a as u128, b as u128);
            }
        }
        cands.unique_seq_to_set();
        assert(cands.to_set().subset_of(used@.to_set())) by {
            assert forall|x: u128| cands.to_set().contains(x) implies used@.to_set().contains(x) by {
                let j = choose|j: int| 0 <= j < cands.len() && cands[j] == x;
                assert(used@.contains(base ^ (j as u128)));
            }
        }
        used@.lemma_cardinality_of_set();
        vstd::set_lib::lemma_len_subset(cands.to_set(), used@.to_set());
    }
    base
}

} // verus!
