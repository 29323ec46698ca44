//! The payload of an integer entry: the integer in as many bytes as its tag
//! says, least significant first, in two's complement.

use crate::bytes::{
    le_bytes, le_signed_value, lemma_le_bytes_congruent, lemma_le_bytes_len,
    lemma_le_signed_round_trip, lemma_pow256_sum, lemma_pow256_values, pow256, write_le,
};
use crate::header::is_int_tag;
use crate::number::{
    fits_encoding, immediate_value, int_encoding, int_payload_size, int_size, is_fixed_int_tag,
    is_immediate_tag,
};
use vstd::prelude::*;

verus! {

/// The payload bytes of `value` under the integer tag `encoding`: its low
/// bytes, as many as the tag has; none under an immediate tag.
pub open spec fn int_payload(value: i64, encoding: u8) -> Seq<u8> {
    le_bytes(value as int, int_payload_size(encoding) as nat)
}

/// Writes the payload of `value` under the integer tag `encoding` at the
/// start of `ptr`. Under an immediate tag nothing is written: the tag holds
/// the integer. A value that the tag's payload cannot hold is cut to its low
/// bytes.
pub fn save_integer(ptr: &mut [u8], value: i64, encoding: u8)
    requires
        is_int_tag(encoding),
        old(ptr)@.len() >= int_payload_size(encoding),
    ensures
        final(ptr)@ == int_payload(value, encoding) + old(ptr)@.skip(
            int_payload_size(encoding) as int,
        ),
{
    let ghost before = ptr@;
    let size: usize = int_size(encoding) as usize;
    let bits: u64 = #[verifier::truncate] (value as u64);
    assert(bits == if value >= 0 {
        value as int
    } else {
        value + 0x1_0000_0000_0000_0000
    }) by (bit_vector)
        requires
            bits == value as u64,
    ;
    write_le(ptr, 0, bits, size);
    proof {
        lemma_pow256_values();
        lemma_pow256_sum((8 - size) as nat, size as nat);
        let wrap: int = if value >= 0 {
            0
        } else {
            pow256((8 - size) as nat) as int
        };
        lemma_le_bytes_congruent(bits as int, value as int, wrap, size as nat);
        assert(ptr@ =~= int_payload(value, encoding) + before.skip(size as int));
    }
}

/// An integer is read back from what is stored for it under any tag that
/// holds it: from the tag itself where the tag is immediate, else from the
/// payload, read as a signed number.
pub proof fn lemma_integer_round_trip(value: i64, encoding: u8)
    requires
        is_int_tag(encoding),
        fits_encoding(value as int, encoding),
    ensures
        int_payload(value, encoding).len() == int_payload_size(encoding),
        is_immediate_tag(encoding) ==> immediate_value(encoding) == value,
        is_fixed_int_tag(encoding) ==> le_signed_value(int_payload(value, encoding)) == value,
{
    lemma_le_bytes_len(value as int, int_payload_size(encoding) as nat);
    if is_fixed_int_tag(encoding) {
        lemma_pow256_values();
        lemma_le_signed_round_trip(value as int, int_payload_size(encoding) as nat);
    }
}

/// An integer is read back from what is stored for it under the tag that is
/// chosen for it.
pub proof fn lemma_chosen_encoding_round_trip(value: i64)
    ensures
        is_int_tag(int_encoding(value)),
        0 <= value < 12 ==> immediate_value(int_encoding(value)) == value,
        !(0 <= value < 12) ==> le_signed_value(int_payload(value, int_encoding(value))) == value,
{
    lemma_integer_round_trip(value, int_encoding(value));
}

} // verus!
