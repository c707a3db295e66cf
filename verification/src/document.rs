use vstd::prelude::*;

verus! {

/// One revision of a stored document: its identifier, the number of the
/// revision, the hash of its content, and the content.
#[derive(Debug, PartialEq)]
pub struct Document {
    pub id: String,
    pub revision: i64,
    pub hash: Vec<u8>,
    pub data: String,
}

} // verus!
