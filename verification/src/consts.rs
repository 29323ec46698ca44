//! The byte values and limits that define the entry format.

use vstd::prelude::*;

verus! {

/// First byte of a five-byte previous-length field; a smaller first byte is
/// the previous length itself.
pub const ZIP_BIG_PREVLEN: u8 = 254;

/// The two top bits of a header byte. A tag below this value is a string tag.
pub const ZIP_STR_MASK: u8 = 0xc0;

/// String whose length fits in the six low bits of the header byte.
pub const ZIP_STR_06B: u8 = 0x00;

/// String whose length takes fourteen bits, over two header bytes.
pub const ZIP_STR_14B: u8 = 0x40;

/// String whose length takes the four bytes after the header byte.
pub const ZIP_STR_32B: u8 = 0x80;

/// Integer stored in two payload bytes.
pub const ZIP_INT_16B: u8 = 0xc0;

/// Integer stored in four payload bytes.
pub const ZIP_INT_32B: u8 = 0xd0;

/// Integer stored in eight payload bytes.
pub const ZIP_INT_64B: u8 = 0xe0;

/// Integer stored in three payload bytes.
pub const ZIP_INT_24B: u8 = 0xf0;

/// Integer stored in one payload byte.
pub const ZIP_INT_8B: u8 = 0xfe;

/// Tag of the immediate integer 0; the tags up to [`ZIP_INT_IMM_MAX`] carry
/// the integers that follow, with no payload.
pub const ZIP_INT_IMM_MIN: u8 = 0xf1;

/// Last immediate tag.
pub const ZIP_INT_IMM_MAX: u8 = 0xfd;

/// Smallest integer that three payload bytes hold.
pub const INT_24_MIN: i64 = -8388608;

/// Largest integer that three payload bytes hold.
pub const INT_24_MAX: i64 = 8388607;

/// What [`crate::header::encoding_len_size`] answers for a tag it does not know.
pub const ZIP_ENCODING_SIZE_INVALID: u8 = 0xff;

/// Offset of the 16-bit element counter in the list's buffer.
pub const ZIPLIST_LENGTH_OFFSET: usize = 8;

/// A string of this many bytes or more is never read as a number.
pub const LONG_STR_SIZE: usize = 21;

/// The byte of the digit `0`; the other digits follow it in order.
pub const DIGIT_ZERO: u8 = 0x30;

/// The byte of the digit `1`.
pub const DIGIT_ONE: u8 = 0x31;

/// The byte of the digit `9`.
pub const DIGIT_NINE: u8 = 0x39;

/// The byte of the minus sign `-`.
pub const MINUS_SIGN: u8 = 0x2d;

} // verus!
