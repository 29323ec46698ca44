//! The element counter of the list: sixteen bits at a fixed place in the
//! buffer, least significant byte first. The largest value it can hold means
//! "this many or more": once the counter has reached it, it stays there, and
//! the true count has to be found by walking the list.

use crate::bytes::{
    le_bytes, le_value, lemma_le_bytes_len, lemma_le_round_trip, lemma_le_value_bound,
    lemma_pow256_values, read_le, write_le,
};
use crate::consts::ZIPLIST_LENGTH_OFFSET;
use vstd::prelude::*;

verus! {

/// The counter that the buffer `buf` holds.
pub open spec fn stored_length(buf: Seq<u8>) -> nat {
    le_value(buf.subrange(ZIPLIST_LENGTH_OFFSET as int, ZIPLIST_LENGTH_OFFSET + 2))
}

/// The counter after `incr` more elements: their sum, held at the largest
/// value that sixteen bits can spell.
pub open spec fn raised_length(count: nat, incr: nat) -> nat {
    if count + incr >= u16::MAX {
        u16::MAX as nat
    } else {
        count + incr
    }
}

/// The buffer `buf` with its counter set to `count`.
pub open spec fn with_length(buf: Seq<u8>, count: nat) -> Seq<u8> {
    buf.subrange(0, ZIPLIST_LENGTH_OFFSET as int) + le_bytes(count as int, 2) + buf.skip(
        ZIPLIST_LENGTH_OFFSET + 2,
    )
}

/// Adds `incr` to the counter in `ptr`. A counter that already holds the
/// largest value is left as it is, and so is the whole buffer; a sum above
/// that value is stored as that value.
pub fn incr_length(ptr: &mut [u8], incr: usize)
    requires
        old(ptr)@.len() >= ZIPLIST_LENGTH_OFFSET + 2,
    ensures
        stored_length(old(ptr)@) == u16::MAX ==> final(ptr)@ == old(ptr)@,
        stored_length(old(ptr)@) != u16::MAX ==> final(ptr)@ == with_length(
            old(ptr)@,
            raised_length(stored_length(old(ptr)@), incr as nat),
        ),
        stored_length(final(ptr)@) == raised_length(stored_length(old(ptr)@), incr as nat),
{
    let ghost before = ptr@;
    proof {
        lemma_le_value_bound(before.subrange(ZIPLIST_LENGTH_OFFSET as int, ZIPLIST_LENGTH_OFFSET + 2));
        lemma_pow256_values();
    }
    let len: u16 = read_le(ptr, ZIPLIST_LENGTH_OFFSET, 2) as u16;
    if len < u16::MAX {
        let room: u16 = u16::MAX - len;
        let raised: u16 = if incr >= room as usize {
            u16::MAX
        } else {
            len + incr as u16
        };
        write_le(ptr, ZIPLIST_LENGTH_OFFSET, raised as u64, 2);
        proof {
            lemma_le_bytes_len(raised as int, 2);
            lemma_le_round_trip(raised as int, 2);
            assert(ptr@ =~= with_length(before, raised as nat));
            assert(ptr@.subrange(ZIPLIST_LENGTH_OFFSET as int, ZIPLIST_LENGTH_OFFSET + 2)
                =~= le_bytes(raised as int, 2));
        }
    }
}

/// Setting the counter changes the counter and nothing else: the buffer
/// keeps its length and every byte outside the counter.
pub proof fn lemma_with_length(buf: Seq<u8>, count: nat)
    requires
        buf.len() >= ZIPLIST_LENGTH_OFFSET + 2,
        count <= u16::MAX,
    ensures
        with_length(buf, count).len() == buf.len(),
        stored_length(with_length(buf, count)) == count,
        forall|i: int|
            0 <= i < buf.len() && !(ZIPLIST_LENGTH_OFFSET <= i < ZIPLIST_LENGTH_OFFSET + 2)
                ==> with_length(buf, count)[i] == buf[i],
{
    lemma_le_bytes_len(count as int, 2);
    lemma_pow256_values();
    lemma_le_round_trip(count as int, 2);
    assert(with_length(buf, count).subrange(
        ZIPLIST_LENGTH_OFFSET as int,
        ZIPLIST_LENGTH_OFFSET + 2,
    ) =~= le_bytes(count as int, 2));
}

} // verus!
