//! The previous-length field: the size of the entry before this one, kept at
//! the head of every entry so that the list can be walked backwards.
//!
//! A length below [`ZIP_BIG_PREVLEN`] is the field's single byte. Any other
//! length takes five bytes: the marker [`ZIP_BIG_PREVLEN`], then the length
//! in four bytes, least significant first.

use crate::bytes::{
    le_bytes, le_value, lemma_le_bytes_len, lemma_le_round_trip, lemma_le_value_bound,
    lemma_pow256_values, read_le, write_le,
};
use crate::consts::ZIP_BIG_PREVLEN;
use vstd::prelude::*;

verus! {

/// The number of bytes that the field takes for the length `len`.
pub open spec fn prev_len_size(len: u32) -> u32 {
    if len < ZIP_BIG_PREVLEN {
        1
    } else {
        5
    }
}

/// The five-byte form of the field for `len`, whatever `len` is.
pub open spec fn prev_len_field_large(len: u32) -> Seq<u8> {
    seq![ZIP_BIG_PREVLEN] + le_bytes(len as int, 4)
}

/// The field for `len` in its shortest form.
pub open spec fn prev_len_field(len: u32) -> Seq<u8> {
    if len < ZIP_BIG_PREVLEN {
        seq![len as u8]
    } else {
        prev_len_field_large(len)
    }
}

/// The number of bytes of the field that starts `buf`, told from its first
/// byte alone.
pub open spec fn stored_prev_len_size(buf: Seq<u8>) -> u32 {
    if buf[0] < ZIP_BIG_PREVLEN {
        1
    } else {
        5
    }
}

/// The length that the field at the start of `buf` holds.
pub open spec fn stored_prev_len(buf: Seq<u8>) -> u32 {
    if buf[0] < ZIP_BIG_PREVLEN {
        buf[0] as u32
    } else {
        le_value(buf.subrange(1, 5)) as u32
    }
}

/// Size of the previous-length field at the start of `ptr`: 1 or 5.
pub fn decode_prev_len_size(ptr: &[u8]) -> (size: u32)
    requires
        ptr@.len() >= 1,
    ensures
        size == stored_prev_len_size(ptr@),
{
    if ptr[0] < ZIP_BIG_PREVLEN {
        1
    } else {
        5
    }
}

/// Size and value of the previous-length field at the start of `ptr`.
pub fn decode_prev_len(ptr: &[u8]) -> (field: (u32, u32))
    requires
        ptr@.len() >= 1,
        ptr@.len() >= stored_prev_len_size(ptr@),
    ensures
        field.0 == stored_prev_len_size(ptr@),
        field.1 == stored_prev_len(ptr@),
{
    let prev_len_size: u32 = decode_prev_len_size(ptr);
    let prev_len: u32 = if prev_len_size == 1 {
        ptr[0] as u32
    } else {
        proof {
            lemma_le_value_bound(ptr@.subrange(1, 5));
            lemma_pow256_values();
        }
        read_le(ptr, 1, 4) as u32
    };
    (prev_len_size, prev_len)
}

/// Writes the five-byte form of the field for `len` at the start of `data`
/// and returns its size. Without a buffer it only returns the size.
pub fn store_prev_entry_length_large(data: Option<&mut [u8]>, len: u32) -> (written: u32)
    requires
        data matches Some(p) ==> p@.len() >= 5,
    ensures
        written == 5,
        written == prev_len_field_large(len).len(),
        data matches Some(p) ==> final(p)@ == prev_len_field_large(len) + p@.skip(5),
{
    broadcast use vstd::layout::layout_of_primitives;

    proof {
        lemma_le_bytes_len(len as int, 4);
    }
    if let Some(p) = data {
        let ghost before = p@;
        p[0] = ZIP_BIG_PREVLEN;
        write_le(p, 1, len as u64, 4);
        assert(p@ =~= prev_len_field_large(len) + before.skip(5));
    }
    (1 + core::mem::size_of::<u32>()) as u32
}

/// Writes the field for `len` at the start of `data`, in its shortest form,
/// and returns the number of bytes written. Without a buffer it writes
/// nothing and returns the number of bytes that the field would take.
pub fn store_prev_entry_length(data: Option<&mut [u8]>, len: u32) -> (written: u32)
    requires
        data matches Some(p) ==> p@.len() >= prev_len_size(len),
    ensures
        written == prev_len_size(len),
        written == prev_len_field(len).len(),
        data matches Some(p) ==> final(p)@ == prev_len_field(len) + p@.skip(written as int),
{
    proof {
        lemma_le_bytes_len(len as int, 4);
    }
    if len < ZIP_BIG_PREVLEN as u32 {
        if let Some(p) = data {
            let ghost before = p@;
            p[0] = len as u8;
            assert(p@ =~= prev_len_field(len) + before.skip(1));
        }
        1
    } else {
        store_prev_entry_length_large(data, len)
    }
}

/// By how many bytes the field at the start of `ptr` has to grow (or, if the
/// number is negative, may shrink) to hold `len` in its shortest form.
pub fn prev_len_bytes_diff(ptr: &[u8], len: u32) -> (diff: i32)
    requires
        ptr@.len() >= 1,
    ensures
        diff == prev_len_size(len) - stored_prev_len_size(ptr@),
        diff == -4 || diff == 0 || diff == 4,
{
    let prev_len_size: u32 = decode_prev_len_size(ptr);
    store_prev_entry_length(None, len) as i32 - prev_len_size as i32
}

/// A length that was stored is the length that is read back, together with
/// the size that was written, whatever follows the field in the buffer.
pub proof fn lemma_prev_len_round_trip(len: u32, rest: Seq<u8>)
    ensures
        prev_len_field(len).len() == prev_len_size(len),
        stored_prev_len_size(prev_len_field(len) + rest) == prev_len_size(len),
        stored_prev_len(prev_len_field(len) + rest) == len,
{
    if len >= ZIP_BIG_PREVLEN {
        lemma_prev_len_large_round_trip(len, rest);
    }
}

/// The five-byte form gives back the length for every length, also one that
/// a single byte could hold.
pub proof fn lemma_prev_len_large_round_trip(len: u32, rest: Seq<u8>)
    ensures
        prev_len_field_large(len).len() == 5,
        stored_prev_len_size(prev_len_field_large(len) + rest) == 5,
        stored_prev_len(prev_len_field_large(len) + rest) == len,
{
    let buf = prev_len_field_large(len) + rest;
    lemma_le_bytes_len(len as int, 4);
    lemma_pow256_values();
    lemma_le_round_trip(len as int, 4);
    assert(buf.subrange(1, 5) =~= le_bytes(len as int, 4));
}

} // verus!
