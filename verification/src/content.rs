//! What an entry holds once it is decoded.

use vstd::prelude::*;

verus! {

/// The payload of one entry: the bytes of a string, or an integer that was
/// stored in its compact form.
#[derive(Debug, PartialEq, Eq)]
pub enum Content {
    String(String),
    Integer(i64),
}

} // verus!
