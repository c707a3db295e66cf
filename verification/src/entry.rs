use crate::checksum::Checksum;
use vstd::prelude::*;

verus! {

/// The order of an entry that the authority has not confirmed yet.
pub const UNASSIGNED: i64 = -1;

/// What an entry is, as mathematical values.
pub struct EntryView {
    pub index: int,
    pub id: u128,
    pub prev: Option<Seq<u8>>,
    pub hash: Seq<u8>,
    pub data: Seq<char>,
}

/// One unit of logged data with its lineage: its identifier, the order the
/// authority gave it (or `UNASSIGNED`), the hash of the entry created just
/// before it, and the hash of its own data.
#[derive(Debug)]
pub struct Entry {
    pub index: i64,
    pub id: u128,
    pub prev: Option<Checksum>,
    pub hash: Checksum,
    pub data: String,
}

impl View for Entry {
    type V = EntryView;

    open spec fn view(&self) -> EntryView {
        EntryView {
            index: self.index as int,
            id: self.id,
            prev: match self.prev {
                Some(c) => Some(c@),
                None => None,
            },
            hash: self.hash@,
            data: self.data@,
        }
    }
}

impl Clone for Entry {
    fn clone(&self) -> (r: Self)
        ensures
            r@ == self@,
    {
        let prev = match &self.prev {
            Some(c) => Some(c.clone()),
            None => None,
        };
        Entry {
            index: self.index,
            id: self.id,
            prev,
            hash: self.hash.clone(),
            data: self.data.clone(),
        }
    }
}

} // verus!
