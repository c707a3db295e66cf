use crate::checksum::{sha1_digest, Checksum};
use crate::entry::{Entry, EntryView, UNASSIGNED};
use crate::error::Error;
use vstd::prelude::*;
use vstd::utf8::encode_utf8;

verus! {

/// What a client is, as mathematical values: the highest order it has been
/// told about and its entries in the order of their creation.
pub struct ClientView {
    pub last_seen_index: int,
    pub entries: Seq<EntryView>,
}

impl ClientView {
    /// The state of a client that has created nothing and seen no order.
    pub open spec fn empty() -> ClientView {
        ClientView { last_seen_index: UNASSIGNED as int, entries: Seq::empty() }
    }

    /// The hash that the next entry refers back to: that of the entry created last.
    pub open spec fn tip(self) -> Option<Seq<u8>> {
        if self.entries.len() == 0 {
            None
        } else {
            Some(self.entries.last().hash)
        }
    }

    /// The entry that creation with `id` and `data` appends.
    pub open spec fn created_entry(self, id: u128, data: Seq<char>) -> EntryView {
        EntryView {
            index: UNASSIGNED as int,
            id,
            prev: self.tip(),
            hash: sha1_digest(encode_utf8(data)),
            data,
        }
    }

    /// The state after an entry with `id` and `data` has been created.
    pub open spec fn create(self, id: u128, data: Seq<char>) -> ClientView {
        ClientView {
            last_seen_index: self.last_seen_index,
            entries: self.entries.push(self.created_entry(id, data)),
        }
    }

    /// The entry at position `i` has this identifier and this hash.
    pub open spec fn matches(self, i: int, id: u128, hash: Seq<u8>) -> bool {
        &&& 0 <= i < self.entries.len()
        &&& self.entries[i].id == id
        &&& self.entries[i].hash == hash
    }

    /// Some buffered entry has this identifier and this hash.
    pub open spec fn has_match(self, id: u128, hash: Seq<u8>) -> bool {
        exists|i: int| #[trigger] self.matches(i, id, hash)
    }

    /// Position `i` holds the earliest created entry with this identifier and this hash.
    pub open spec fn is_first_match(self, i: int, id: u128, hash: Seq<u8>) -> bool {
        &&& self.matches(i, id, hash)
        &&& forall|j: int| 0 <= j < i ==> !#[trigger] self.matches(j, id, hash)
    }

    /// The position of the earliest created entry with this identifier and this hash.
    pub open spec fn first_match(self, id: u128, hash: Seq<u8>) -> int {
        choose|i: int| self.is_first_match(i, id, hash)
    }

    /// What a confirmation of `index` for `(id, hash)` answers.
    pub open spec fn confirm_result(self, index: int, id: u128, hash: Seq<u8>) -> Result<
        (),
        Error,
    > {
        if index == self.last_seen_index {
            Err(Error::OrderAlreadySeen)
        } else if index < self.last_seen_index {
            Err(Error::OrderRegression)
        } else if self.has_match(id, hash) {
            Ok(())
        } else {
            Err(Error::UnknownEntry)
        }
    }

    /// The state after a confirmation of `index` for `(id, hash)`: unchanged
    /// where the order is stale; else the order is the highest seen, and the
    /// earliest matching entry, if there is one, carries it.
    pub open spec fn confirm(self, index: int, id: u128, hash: Seq<u8>) -> ClientView {
        if index <= self.last_seen_index {
            self
        } else if self.has_match(id, hash) {
            let i = self.first_match(id, hash);
            ClientView {
                last_seen_index: index,
                entries: self.entries.update(i, EntryView { index, ..self.entries[i] }),
            }
        } else {
            ClientView { last_seen_index: index, entries: self.entries }
        }
    }

    /// What holds of every state a client can reach: no order lies below the
    /// sentinel or above the highest seen, every hash is the digest of its
    /// entry's data, and every entry refers back to the one created before it.
    pub open spec fn well_formed(self) -> bool {
        &&& UNASSIGNED <= self.last_seen_index
        &&& forall|i: int|
            0 <= i < self.entries.len() ==> {
                let e = #[trigger] self.entries[i];
                &&& UNASSIGNED <= e.index <= self.last_seen_index
                &&& e.hash == sha1_digest(encode_utf8(e.data))
                &&& e.prev == if i == 0 {
                    None
                } else {
                    Some(self.entries[i - 1].hash)
                }
            }
    }
}

/// A client session's log buffer.
#[derive(Debug)]
pub struct Client {
    last_seen_index: i64,
    entries: Vec<Entry>,
}

impl View for Client {
    type V = ClientView;

    closed spec fn view(&self) -> ClientView {
        ClientView {
            last_seen_index: self.last_seen_index as int,
            entries: self.entries@.map_values(|e: Entry| e@),
        }
    }
}

impl Client {
    /// A client that has created nothing and seen no order.
    pub fn new() -> (client: Client)
        ensures
            client@ == ClientView::empty(),
            client@.well_formed(),
    {
        let client = Client { last_seen_index: UNASSIGNED, entries: Vec::new() };
        assert(client@.entries =~= Seq::empty());
        client
    }

    /// The highest order this client has been told about, or `UNASSIGNED`.
    pub fn last_seen_index(&self) -> (index: i64)
        ensures
            index == self@.last_seen_index,
    {
        self.last_seen_index
    }

    /// The entries in the order of their creation.
    pub fn entries(&self) -> (entries: &Vec<Entry>)
        ensures
            entries@.len() == self@.entries.len(),
            forall|i: int| 0 <= i < entries@.len() ==> (#[trigger] entries@[i])@ == self@.entries[i],
    {
        &self.entries
    }

    /// Appends an entry for `data` under the identifier `id` and returns a
    /// copy of it. The entry has no order yet and refers back to the entry
    /// created last.
    pub fn push_entry(&mut self, id: u128, data: String) -> (entry: Entry)
        ensures
            final(self)@ == old(self)@.create(id, data@),
            entry@ == old(self)@.created_entry(id, data@),
            old(self)@.well_formed() ==> final(self)@.well_formed(),
    {
        let n = self.entries.len();
        let prev = if n == 0 {
            None
        } else {
            Some(self.entries[n - 1].hash.clone())
        };
        let hash = Checksum::calculate(data.as_str());
        let entry = Entry { index: UNASSIGNED, id, prev, hash, data };
        let copy = entry.clone();
        proof {
            if self@.well_formed() {
                lemma_create_well_formed(self@, id, entry@.data);
            }
            assert(self.entries@.push(entry).map_values(|e: Entry| e@) =~= self@.entries.push(
                entry@,
            ));
        }
        self.entries.push(entry);
        copy
    }

    /// Creates an entry for `data` under a fresh random identifier, appends
    /// it and returns a copy of it.
    pub fn new_entry(&mut self, data: String) -> (entry: Entry)
        ensures
            final(self)@ == old(self)@.create(entry.id, data@),
            entry@ == old(self)@.created_entry(entry.id, data@),
            old(self)@.well_formed() ==> final(self)@.well_formed(),
    {
        let id = fresh_id();
        self.push_entry(id, data)
    }

    /// Applies the authority's assignment of `index` to the entry with this
    /// identifier and this hash. A stale order is refused and changes nothing.
    /// Any other order becomes the highest seen, whether or not an entry
    /// matches; where several match, the one created first is stamped.
    pub fn set_index(&mut self, index: i64, id: u128, hash: Checksum) -> (r: Result<(), Error>)
        ensures
            r == old(self)@.confirm_result(index as int, id, hash@),
            final(self)@ == old(self)@.confirm(index as int, id, hash@),
            final(self)@.last_seen_index >= old(self)@.last_seen_index,
            old(self)@.well_formed() ==> final(self)@.well_formed(),
    {
        if index == self.last_seen_index {
            return Err(Error::OrderAlreadySeen);
        } else if index < self.last_seen_index {
            return Err(Error::OrderRegression);
        }
        let ghost before = self@;
        let mut found: Option<usize> = None;
        let mut i: usize = 0;
        while found.is_none() && i < self.entries.len()
            invariant
                before == self@,
                0 <= i <= self.entries.len(),
                found is None ==> forall|j: int| 0 <= j < i ==> !#[trigger] before.matches(j, id, hash@),
                found matches Some(k) ==> before.is_first_match(k as int, id, hash@),
            decreases self.entries.len() - i + if found is None { 1int } else { 0int },
        {
            assert(before.entries[i as int] == self.entries@[i as int]@);
            if self.entries[i].id == id && self.entries[i].hash == hash {
                found = Some(i);
            } else {
                i += 1;
            }
        }
        self.last_seen_index = index;
        match found {
            Some(k) => {
                self.entries[k].index = index;
                proof {
                    lemma_first_match_unique(before, k as int, id, hash@);
                    if before.well_formed() {
                        lemma_confirm_well_formed(before, index as int, id, hash@);
                    }
                    assert(self@.entries =~= before.entries.update(
                        k as int,
                        EntryView { index: index as int, ..before.entries[k as int] },
                    ));
                }
                Ok(())
            },
            None => {
                proof {
                    if before.well_formed() {
                        lemma_confirm_well_formed(before, index as int, id, hash@);
                    }
                }
                Err(Error::UnknownEntry)
            },
        }
    }
}

/// `Uuid::new_v4` of the `uuid` crate, as a 128-bit number. The identifier is
/// random, so nothing is claimed of it. The call ends the process if the
/// operating system cannot supply random bytes.
#[verifier::external_body]
fn fresh_id() -> (id: u128) {
    uuid::Uuid::new_v4().as_u128()
}

/// At most one position holds the earliest match.
pub proof fn lemma_first_match_unique(state: ClientView, i: int, id: u128, hash: Seq<u8>)
    requires
        state.is_first_match(i, id, hash),
    ensures
        state.has_match(id, hash),
        state.first_match(id, hash) == i,
{
    let k = state.first_match(id, hash);
    assert(state.is_first_match(k, id, hash));
    if k < i {
        assert(state.matches(k, id, hash));
    } else if i < k {
        assert(state.matches(i, id, hash));
    }
}

/// Where some entry matches, one of the matching entries is the earliest.
pub proof fn lemma_first_match_exists(state: ClientView, id: u128, hash: Seq<u8>)
    requires
        state.has_match(id, hash),
    ensures
        state.is_first_match(state.first_match(id, hash), id, hash),
{
    let w = choose|i: int| #[trigger] state.matches(i, id, hash);
    lemma_earliest_up_to(state, w, id, hash);
}

/// Below or at any matching position lies an earliest match.
proof fn lemma_earliest_up_to(state: ClientView, w: int, id: u128, hash: Seq<u8>)
    requires
        state.matches(w, id, hash),
    ensures
        exists|i: int| state.is_first_match(i, id, hash),
    decreases w,
{
    if exists|j: int| 0 <= j < w && #[trigger] state.matches(j, id, hash) {
        let j = choose|j: int| 0 <= j < w && #[trigger] state.matches(j, id, hash);
        lemma_earliest_up_to(state, j, id, hash);
    } else {
        assert(state.is_first_match(w, id, hash));
    }
}

/// Confirmation keeps a state well-formed, and never lowers the highest order seen.
pub proof fn lemma_confirm_well_formed(state: ClientView, index: int, id: u128, hash: Seq<u8>)
    requires
        state.well_formed(),
    ensures
        state.confirm(index, id, hash).well_formed(),
        state.confirm(index, id, hash).last_seen_index >= state.last_seen_index,
{
    if index > state.last_seen_index && state.has_match(id, hash) {
        lemma_first_match_exists(state, id, hash);
    }
}

/// Creation keeps a state well-formed.
pub proof fn lemma_create_well_formed(state: ClientView, id: u128, data: Seq<char>)
    requires
        state.well_formed(),
    ensures
        state.create(id, data).well_formed(),
{
}

/// Three entries created one after the other by a new client, with nothing
/// confirmed in between: none has an order, each carries the identifier it
/// was created under, the first refers back to nothing and each later one to
/// the hash of the one before it.
pub proof fn lemma_three_creates(
    id1: u128,
    data1: Seq<char>,
    id2: u128,
    data2: Seq<char>,
    id3: u128,
    data3: Seq<char>,
)
    ensures
        ({
            let state = ClientView::empty().create(id1, data1).create(id2, data2).create(
                id3,
                data3,
            );
            &&& state.well_formed()
            &&& state.last_seen_index == UNASSIGNED
            &&& state.entries.len() == 3
            &&& forall|i: int| 0 <= i < 3 ==> (#[trigger] state.entries[i]).index == UNASSIGNED
            &&& state.entries[0].id == id1 && state.entries[1].id == id2 && state.entries[2].id
                == id3
            &&& state.entries[0].prev == None::<Seq<u8>>
            &&& state.entries[1].prev == Some(state.entries[0].hash)
            &&& state.entries[2].prev == Some(state.entries[1].hash)
            &&& state.entries[0].hash == sha1_digest(encode_utf8(data1))
            &&& state.entries[1].hash == sha1_digest(encode_utf8(data2))
            &&& state.entries[2].hash == sha1_digest(encode_utf8(data3))
        }),
{
    let s0 = ClientView::empty();
    let s1 = s0.create(id1, data1);
    let s2 = s1.create(id2, data2);
    lemma_create_well_formed(s0, id1, data1);
    lemma_create_well_formed(s1, id2, data2);
    lemma_create_well_formed(s2, id3, data3);
}

/// An order at or below the highest order seen is refused, whatever entry it
/// is confirmed for, and the refusal changes nothing: as already seen where
/// it equals the highest, as a regression where it lies below.
pub proof fn lemma_stale_order_refused(state: ClientView, index: int, id: u128, hash: Seq<u8>)
    requires
        index <= state.last_seen_index,
    ensures
        state.confirm(index, id, hash) == state,
        index == state.last_seen_index ==> state.confirm_result(index, id, hash) == Err::<
            (),
            Error,
        >(Error::OrderAlreadySeen),
        index < state.last_seen_index ==> state.confirm_result(index, id, hash) == Err::<
            (),
            Error,
        >(Error::OrderRegression),
{
}

/// An order that was accepted is refused when it comes again, whatever entry
/// it is confirmed for, and the refusal changes nothing.
pub proof fn lemma_same_order_twice(
    state: ClientView,
    index: int,
    id: u128,
    hash: Seq<u8>,
    id2: u128,
    hash2: Seq<u8>,
)
    requires
        index > state.last_seen_index,
    ensures
        ({
            let after = state.confirm(index, id, hash);
            &&& after.confirm_result(index, id2, hash2) == Err::<(), Error>(Error::OrderAlreadySeen)
            &&& after.confirm(index, id2, hash2) == after
        }),
{
}

/// After an order was accepted, every lower order is refused as a
/// regression, and the refusal changes nothing.
pub proof fn lemma_lower_order_after(
    state: ClientView,
    index: int,
    id: u128,
    hash: Seq<u8>,
    lower: int,
    id2: u128,
    hash2: Seq<u8>,
)
    requires
        index > state.last_seen_index,
        lower < index,
    ensures
        ({
            let after = state.confirm(index, id, hash);
            &&& after.confirm_result(lower, id2, hash2) == Err::<(), Error>(Error::OrderRegression)
            &&& after.confirm(lower, id2, hash2) == after
        }),
{
}

/// A fresh order for an entry that the buffer does not hold is reported as
/// unknown, yet it becomes the highest order seen and the entries stay as
/// they were. An empty buffer holds no entry at all.
pub proof fn lemma_unknown_entry_advances(state: ClientView, index: int, id: u128, hash: Seq<u8>)
    requires
        index > state.last_seen_index,
        !state.has_match(id, hash),
    ensures
        state.confirm_result(index, id, hash) == Err::<(), Error>(Error::UnknownEntry),
        state.confirm(index, id, hash).last_seen_index == index,
        state.confirm(index, id, hash).entries == state.entries,
{
}

/// No entry of an empty buffer matches anything.
pub proof fn lemma_empty_has_no_match(state: ClientView, id: u128, hash: Seq<u8>)
    requires
        state.entries.len() == 0,
    ensures
        !state.has_match(id, hash),
{
}

/// A fresh order for an entry that the buffer holds stamps the earliest
/// created match with it and leaves every other entry as it was.
pub proof fn lemma_confirm_stamps_first_match(
    state: ClientView,
    index: int,
    id: u128,
    hash: Seq<u8>,
    k: int,
)
    requires
        index > state.last_seen_index,
        state.is_first_match(k, id, hash),
    ensures
        state.confirm_result(index, id, hash) == Ok::<(), Error>(()),
        state.confirm(index, id, hash).last_seen_index == index,
        state.confirm(index, id, hash).entries.len() == state.entries.len(),
        state.confirm(index, id, hash).entries[k] == (EntryView { index, ..state.entries[k] }),
        forall|i: int|
            0 <= i < state.entries.len() && i != k ==> #[trigger] state.confirm(
                index,
                id,
                hash,
            ).entries[i] == state.entries[i],
{
    lemma_first_match_unique(state, k, id, hash);
}

} // verus!
