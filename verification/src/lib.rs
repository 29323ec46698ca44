//! Entry codec of a ziplist: a packed list that keeps many small strings and
//! integers back to back in one byte buffer.
//!
//! Every entry carries the encoded length of the entry before it, a header
//! that tells a string from an integer and gives the payload's size, and the
//! payload. The functions here read and write those fields; the list that
//! owns the buffer is not part of this crate.
//!
//! Each function's contract is stated over the byte sequence of the buffer
//! and the spec functions of its module, and the laws that tie encoders to
//! decoders are proved beside them.

pub mod bytes;
pub mod consts;
pub mod content;
pub mod counter;
pub mod error;
pub mod header;
pub mod number;
pub mod payload;
pub mod prevlen;

pub use content::Content;
pub use counter::incr_length;
pub use error::ZipListError;
pub use header::{
    decode_length, encoding_len_size, entry_encoding, is_string, store_entry_encoding,
};
pub use number::{int_size, string_to_number, try_encoding};
pub use payload::save_integer;
pub use prevlen::{
    decode_prev_len, decode_prev_len_size, prev_len_bytes_diff, store_prev_entry_length,
    store_prev_entry_length_large,
};
