//! The entry header: the tag that tells a string from an integer, and with
//! it the size of the payload.
//!
//! The two top bits of the first header byte select the form:
//!
//! | first byte  | header                                               | payload        |
//! |-------------|------------------------------------------------------|----------------|
//! | `00pppppp`  | one byte; the length is its six low bits             | string         |
//! | `01pppppp`  | two bytes; six low bits, then eight more bits        | string         |
//! | `10______`  | five bytes; the length is the last four, low first   | string         |
//! | `11______`  | one byte; an integer tag                             | 0 to 8 bytes   |

use crate::bytes::{
    le_bytes, le_value, lemma_le_bytes_len, lemma_le_round_trip, lemma_le_value_bound,
    lemma_pow256_values, read_le, write_le,
};
use crate::consts::{
    ZIP_ENCODING_SIZE_INVALID, ZIP_INT_16B, ZIP_INT_24B, ZIP_INT_32B, ZIP_INT_64B, ZIP_INT_8B,
    ZIP_INT_IMM_MAX, ZIP_INT_IMM_MIN, ZIP_STR_06B, ZIP_STR_14B, ZIP_STR_32B, ZIP_STR_MASK,
};
use crate::number::{int_payload_size, is_fixed_int_tag, is_immediate_tag};
use vstd::prelude::*;

verus! {

/// The tag marks a string: its two top bits are not both set.
pub open spec fn is_string_tag(encoding: u8) -> bool {
    encoding < ZIP_STR_MASK
}

/// The tag marks an integer, immediate or with a payload.
pub open spec fn is_int_tag(encoding: u8) -> bool {
    is_fixed_int_tag(encoding) || is_immediate_tag(encoding)
}

/// The tag of an entry whose header starts with the byte `first`: for a
/// string the length class, without the length bits; for an integer the byte
/// itself.
pub open spec fn tag_of(first: u8) -> u8 {
    if first < ZIP_STR_14B {
        ZIP_STR_06B
    } else if first < ZIP_STR_32B {
        ZIP_STR_14B
    } else if first < ZIP_STR_MASK {
        ZIP_STR_32B
    } else {
        first
    }
}

/// The number of header bytes under the tag `encoding`; 0 for a byte that is
/// no tag.
pub open spec fn header_size(encoding: u8) -> u32 {
    if encoding == ZIP_STR_06B {
        1
    } else if encoding == ZIP_STR_14B {
        2
    } else if encoding == ZIP_STR_32B {
        5
    } else if is_int_tag(encoding) {
        1
    } else {
        0
    }
}

/// The number of payload bytes of the entry whose header starts `buf` and
/// has the tag `encoding`; 0 for a byte that is no tag.
pub open spec fn payload_size(buf: Seq<u8>, encoding: u8) -> u32 {
    if encoding == ZIP_STR_06B {
        (buf[0] % 64) as u32
    } else if encoding == ZIP_STR_14B {
        ((buf[0] % 64) * 256 + buf[1]) as u32
    } else if encoding == ZIP_STR_32B {
        le_value(buf.subrange(1, 5)) as u32
    } else {
        int_payload_size(encoding)
    }
}

/// The header of a string of `raw_len` bytes, in the shortest of its three
/// forms.
pub open spec fn string_header(raw_len: u32) -> Seq<u8> {
    if raw_len <= 0x3f {
        seq![raw_len as u8]
    } else if raw_len <= 0x3fff {
        seq![(ZIP_STR_14B + raw_len / 256) as u8, (raw_len % 256) as u8]
    } else {
        seq![ZIP_STR_32B] + le_bytes(raw_len as int, 4)
    }
}

/// The header that is written for the tag `encoding`: for a string tag the
/// header of a string of `raw_len` bytes, for any other tag the tag.
pub open spec fn entry_header(encoding: u8, raw_len: u32) -> Seq<u8> {
    if is_string_tag(encoding) {
        string_header(raw_len)
    } else {
        seq![encoding]
    }
}

/// The number of bytes of [`entry_header`].
pub open spec fn entry_header_size(encoding: u8, raw_len: u32) -> u32 {
    if !is_string_tag(encoding) || raw_len <= 0x3f {
        1
    } else if raw_len <= 0x3fff {
        2
    } else {
        5
    }
}

/// Whether the tag marks a string.
pub fn is_string(encoding: u8) -> (string: bool)
    ensures
        string == is_string_tag(encoding),
{
    assert((encoding & 0xc0 < 0xc0) == (encoding < 0xc0)) by (bit_vector);
    encoding & ZIP_STR_MASK < ZIP_STR_MASK
}

/// The tag of the entry whose header starts `ptr`.
pub fn entry_encoding(ptr: &[u8]) -> (encoding: u8)
    requires
        ptr@.len() >= 1,
    ensures
        encoding == tag_of(ptr@[0]),
{
    let mut encoding: u8 = ptr[0];
    if encoding < ZIP_STR_MASK {
        assert(encoding & 0xc0 == if encoding < 0x40 {
            0x00u8
        } else if encoding < 0x80 {
            0x40u8
        } else {
            0x80u8
        }) by (bit_vector)
            requires
                encoding < 0xc0,
        ;
        encoding &= ZIP_STR_MASK;
    }
    encoding
}

/// Size of the header and size of the payload of the entry whose header
/// starts `ptr` and whose tag is `encoding`. For a byte that is no tag both
/// are 0; no entry has a header of no bytes, so that result marks a buffer
/// that is not a list.
pub fn decode_length(ptr: &[u8], encoding: u8) -> (sizes: (u32, u32))
    requires
        is_string_tag(encoding) ==> ptr@.len() >= header_size(encoding),
    ensures
        sizes.0 == header_size(encoding),
        sizes.1 == payload_size(ptr@, encoding),
        sizes.0 == 0 ==> sizes.1 == 0,
{
    if encoding < ZIP_STR_MASK {
        if encoding == ZIP_STR_06B {
            let first: u8 = ptr[0];
            let low: u8 = first & 0x3f;
            assert(low == first % 64) by (bit_vector)
                requires
                    low == first & 0x3f,
            ;
            (1, low as u32)
        } else if encoding == ZIP_STR_14B {
            let first: u8 = ptr[0];
            let second: u8 = ptr[1];
            let len: u32 = (((first & 0x3f) as u32) << 8) | (second as u32);
            assert(len == (first % 64) * 256 + second) by (bit_vector)
                requires
                    len == (((first & 0x3f) as u32) << 8) | (second as u32),
            ;
            (2, len)
        } else if encoding == ZIP_STR_32B {
            proof {
                lemma_le_value_bound(ptr@.subrange(1, 5));
                lemma_pow256_values();
            }
            (5, read_le(ptr, 1, 4) as u32)
        } else {
            (0, 0)
        }
    } else if encoding == ZIP_INT_8B {
        (1, 1)
    } else if encoding == ZIP_INT_16B {
        (1, 2)
    } else if encoding == ZIP_INT_24B {
        (1, 3)
    } else if encoding == ZIP_INT_32B {
        (1, 4)
    } else if encoding == ZIP_INT_64B {
        (1, 8)
    } else if encoding >= ZIP_INT_IMM_MIN && encoding <= ZIP_INT_IMM_MAX {
        (1, 0)
    } else {
        (0, 0)
    }
}

/// Size of the header under the tag `encoding`, without looking at a buffer;
/// [`ZIP_ENCODING_SIZE_INVALID`] for a byte that is no tag.
#[inline]
pub fn encoding_len_size(encoding: u8) -> (size: u32)
    ensures
        header_size(encoding) != 0 ==> size == header_size(encoding),
        header_size(encoding) == 0 ==> size == ZIP_ENCODING_SIZE_INVALID,
{
    if encoding == ZIP_INT_8B || encoding == ZIP_INT_16B || encoding == ZIP_INT_24B || encoding
        == ZIP_INT_32B || encoding == ZIP_INT_64B {
        1
    } else if encoding >= ZIP_INT_IMM_MIN && encoding <= ZIP_INT_IMM_MAX {
        1
    } else if encoding == ZIP_STR_06B {
        1
    } else if encoding == ZIP_STR_14B {
        2
    } else if encoding == ZIP_STR_32B {
        5
    } else {
        ZIP_ENCODING_SIZE_INVALID as u32
    }
}

/// Writes the header for the tag `encoding` at the start of `data` and
/// returns the number of bytes written. For a string tag the header is that
/// of a string of `raw_len` bytes, in the shortest form that holds
/// `raw_len`; for any other tag it is the tag. Without a buffer nothing is
/// written and the number of bytes that the header would take is returned.
pub fn store_entry_encoding(data: Option<&mut [u8]>, encoding: u8, raw_len: u32) -> (written: u32)
    requires
        data matches Some(p) ==> p@.len() >= entry_header_size(encoding, raw_len),
    ensures
        written == entry_header_size(encoding, raw_len),
        written == entry_header(encoding, raw_len).len(),
        data matches Some(p) ==> final(p)@ == entry_header(encoding, raw_len) + p@.skip(
            written as int,
        ),
{
    proof {
        lemma_le_bytes_len(raw_len as int, 4);
    }
    if is_string(encoding) {
        if raw_len <= 0x3f {
            if let Some(p) = data {
                let ghost before = p@;
                let first: u8 = ZIP_STR_06B | (raw_len as u8);
                assert(first == raw_len as u8) by (bit_vector)
                    requires
                        first == 0x00u8 | (raw_len as u8),
                ;
                p[0] = first;
                assert(p@ =~= entry_header(encoding, raw_len) + before.skip(1));
            }
            1
        } else if raw_len <= 0x3fff {
            if let Some(p) = data {
                let ghost before = p@;
                let first: u8 = ZIP_STR_14B | ((raw_len >> 8) as u8) & 0x3f;
                let second: u8 = (raw_len & 0xff) as u8;
                assert(first == 0x40 + raw_len / 256 && second == raw_len % 256) by (bit_vector)
                    requires
                        raw_len <= 0x3fff,
                        first == 0x40u8 | ((raw_len >> 8) as u8) & 0x3f,
                        second == (raw_len & 0xff) as u8,
                ;
                p[0] = first;
                p[1] = second;
                assert(p@ =~= entry_header(encoding, raw_len) + before.skip(2));
            }
            2
        } else {
            if let Some(p) = data {
                let ghost before = p@;
                p[0] = ZIP_STR_32B;
                write_le(p, 1, raw_len as u64, 4);
                assert(p@ =~= entry_header(encoding, raw_len) + before.skip(5));
            }
            5
        }
    } else {
        if let Some(p) = data {
            let ghost before = p@;
            p[0] = encoding;
            assert(p@ =~= entry_header(encoding, raw_len) + before.skip(1));
        }
        1
    }
}

/// The header written for a string of `raw_len` bytes is read back as the
/// tag of its length class, the size that was written and the length
/// `raw_len`, whatever follows the header in the buffer; and the size is the
/// smallest that holds `raw_len`.
pub proof fn lemma_string_header_round_trip(encoding: u8, raw_len: u32, rest: Seq<u8>)
    requires
        is_string_tag(encoding),
    ensures
        ({
            let buf = entry_header(encoding, raw_len) + rest;
            let tag = tag_of(buf[0]);
            &&& is_string_tag(tag)
            &&& header_size(tag) == entry_header_size(encoding, raw_len)
            &&& payload_size(buf, tag) == raw_len
        }),
        entry_header(encoding, raw_len).len() == entry_header_size(encoding, raw_len),
        entry_header_size(encoding, raw_len) == 1 <==> raw_len <= 0x3f,
        entry_header_size(encoding, raw_len) == 2 <==> 0x3f < raw_len <= 0x3fff,
        entry_header_size(encoding, raw_len) == 5 <==> 0x3fff < raw_len,
{
    let buf = entry_header(encoding, raw_len) + rest;
    lemma_le_bytes_len(raw_len as int, 4);
    if raw_len > 0x3fff {
        lemma_pow256_values();
        lemma_le_round_trip(raw_len as int, 4);
        assert(buf.subrange(1, 5) =~= le_bytes(raw_len as int, 4));
    }
}

/// The header written for an integer tag is read back as that tag, with a
/// header of one byte and the payload size of the tag.
pub proof fn lemma_int_header_round_trip(encoding: u8, raw_len: u32, rest: Seq<u8>)
    requires
        is_int_tag(encoding),
    ensures
        ({
            let buf = entry_header(encoding, raw_len) + rest;
            let tag = tag_of(buf[0]);
            &&& tag == encoding
            &&& header_size(tag) == 1
            &&& payload_size(buf, tag) == int_payload_size(encoding)
        }),
        entry_header(encoding, raw_len).len() == 1,
        entry_header_size(encoding, raw_len) == 1,
{
}

} // verus!
