use event_log::checksum::Checksum;
use event_log::client::Client;
use event_log::document::Document;
use event_log::entry::UNASSIGNED;
use event_log::error::Error;

#[test]
fn new_client_is_empty() {
    let client = Client::new();
    assert_eq!(client.last_seen_index(), -1);
    assert_eq!(client.last_seen_index(), UNASSIGNED);
    assert!(client.entries().is_empty());
}

#[test]
fn three_creates_are_chained_and_unassigned() {
    let mut client = Client::new();
    let e1 = client.new_entry(String::from("{\"a\":1234}"));
    let e2 = client.new_entry(String::from("{\"a\":4444}"));
    let e3 = client.new_entry(String::from("{\"a\":9000}"));
    let entries = client.entries();
    assert_eq!(entries.len(), 3);
    for e in entries.iter() {
        assert_eq!(e.index, UNASSIGNED);
    }
    assert!(e1.id != e2.id && e2.id != e3.id && e1.id != e3.id);
    assert_eq!(entries[0].prev, None);
    assert_eq!(entries[1].prev, Some(entries[0].hash.clone()));
    assert_eq!(entries[2].prev, Some(entries[1].hash.clone()));
    assert_eq!(entries[0].hash, Checksum::calculate("{\"a\":1234}"));
    assert_eq!(entries[1].hash, Checksum::calculate("{\"a\":4444}"));
    assert_eq!(entries[2].hash, Checksum::calculate("{\"a\":9000}"));
    assert_eq!(entries[0].data, "{\"a\":1234}");
    assert_eq!(client.last_seen_index(), UNASSIGNED);
}

#[test]
fn created_entry_is_a_copy_of_the_buffered_one() {
    let mut client = Client::new();
    let first = client.push_entry(11, String::from("one"));
    let second = client.push_entry(22, String::from("two"));
    assert_eq!(first.index, -1);
    assert_eq!(first.id, 11);
    assert_eq!(first.prev, None);
    assert_eq!(first.hash, Checksum::calculate("one"));
    assert_eq!(first.data, "one");
    assert_eq!(second.id, 22);
    assert_eq!(second.prev, Some(Checksum::calculate("one")));
    assert_eq!(second.hash, Checksum::calculate("two"));
    let stored = &client.entries()[1];
    assert_eq!(stored.id, second.id);
    assert_eq!(stored.prev, second.prev);
    assert_eq!(stored.hash, second.hash);
    assert_eq!(stored.data, second.data);
    assert_eq!(stored.index, second.index);
}

#[test]
fn same_order_twice_is_already_seen() {
    let mut client = Client::new();
    let e = client.new_entry(String::from("x"));
    assert_eq!(client.set_index(0, e.id, e.hash.clone()), Ok(()));
    assert_eq!(client.set_index(0, e.id, e.hash.clone()), Err(Error::OrderAlreadySeen));
    assert_eq!(client.last_seen_index(), 0);
    assert_eq!(client.entries()[0].index, 0);
}

#[test]
fn lower_order_is_a_regression() {
    let mut client = Client::new();
    let e = client.new_entry(String::from("x"));
    assert_eq!(client.set_index(0, e.id, e.hash.clone()), Ok(()));
    assert_eq!(client.set_index(-1, e.id, e.hash.clone()), Err(Error::OrderRegression));
    assert_eq!(client.last_seen_index(), 0);
    assert_eq!(client.entries()[0].index, 0);
}

#[test]
fn sentinel_order_on_a_new_client_is_already_seen() {
    let mut client = Client::new();
    let e = client.new_entry(String::from("x"));
    assert_eq!(client.set_index(-1, e.id, e.hash.clone()), Err(Error::OrderAlreadySeen));
    assert_eq!(client.set_index(-2, e.id, e.hash.clone()), Err(Error::OrderRegression));
    assert_eq!(client.set_index(i64::MIN, e.id, e.hash), Err(Error::OrderRegression));
    assert_eq!(client.last_seen_index(), -1);
    assert_eq!(client.entries()[0].index, -1);
}

#[test]
fn unknown_entry_on_empty_buffer_still_advances() {
    let mut client = Client::new();
    let hash = Checksum::calculate("never created");
    assert_eq!(client.set_index(5, 77, hash), Err(Error::UnknownEntry));
    assert_eq!(client.last_seen_index(), 5);
    assert!(client.entries().is_empty());
}

#[test]
fn example_scenario() {
    let mut client = Client::new();
    let entry = client.new_entry(String::from("{\"a\":1234}"));
    client.new_entry(String::from("{\"a\":4444}"));
    client.new_entry(String::from("{\"a\":9000}"));
    assert_eq!(client.set_index(0, entry.id, entry.hash), Ok(()));
    let entries = client.entries();
    assert_eq!(entries[0].index, 0);
    assert_eq!(entries[1].index, UNASSIGNED);
    assert_eq!(entries[2].index, UNASSIGNED);
    assert_eq!(client.last_seen_index(), 0);
}

#[test]
fn both_identifier_and_hash_must_match() {
    let mut client = Client::new();
    let e = client.push_entry(1, String::from("payload"));
    let other = Checksum::calculate("other payload");
    assert_eq!(client.set_index(0, 1, other), Err(Error::UnknownEntry));
    assert_eq!(client.entries()[0].index, UNASSIGNED);
    assert_eq!(client.last_seen_index(), 0);
    assert_eq!(client.set_index(1, 2, e.hash.clone()), Err(Error::UnknownEntry));
    assert_eq!(client.entries()[0].index, UNASSIGNED);
    assert_eq!(client.last_seen_index(), 1);
    assert_eq!(client.set_index(2, 1, e.hash), Ok(()));
    assert_eq!(client.entries()[0].index, 2);
    assert_eq!(client.last_seen_index(), 2);
}

#[test]
fn confirmations_may_arrive_out_of_creation_order() {
    let mut client = Client::new();
    let a = client.push_entry(1, String::from("a"));
    let b = client.push_entry(2, String::from("b"));
    let c = client.push_entry(3, String::from("c"));
    assert_eq!(client.set_index(3, c.id, c.hash), Ok(()));
    assert_eq!(client.set_index(7, a.id, a.hash), Ok(()));
    assert_eq!(client.set_index(5, b.id, b.hash.clone()), Err(Error::OrderRegression));
    assert_eq!(client.set_index(7, b.id, b.hash), Err(Error::OrderAlreadySeen));
    let entries = client.entries();
    assert_eq!(entries[0].index, 7);
    assert_eq!(entries[1].index, UNASSIGNED);
    assert_eq!(entries[2].index, 3);
    assert_eq!(client.last_seen_index(), 7);
    assert_eq!(entries[1].prev, Some(entries[0].hash.clone()));
    assert_eq!(entries[2].prev, Some(entries[1].hash.clone()));
}

#[test]
fn only_the_first_of_equal_entries_is_stamped() {
    let mut client = Client::new();
    let first = client.push_entry(9, String::from("same"));
    client.push_entry(9, String::from("same"));
    assert_eq!(client.set_index(4, 9, first.hash), Ok(()));
    assert_eq!(client.entries()[0].index, 4);
    assert_eq!(client.entries()[1].index, UNASSIGNED);
}

#[test]
fn last_seen_index_never_goes_down() {
    let mut client = Client::new();
    let e = client.new_entry(String::from("x"));
    let orders: [i64; 8] = [3, 1, 3, 10, -5, 9, 11, i64::MAX];
    let mut highest = client.last_seen_index();
    for order in orders {
        let _ = client.set_index(order, e.id, e.hash.clone());
        assert!(client.last_seen_index() >= highest);
        highest = client.last_seen_index();
    }
    assert_eq!(highest, i64::MAX);
    assert_eq!(client.set_index(i64::MAX, e.id, e.hash), Err(Error::OrderAlreadySeen));
}

#[test]
fn fresh_identifiers_differ() {
    let mut client = Client::new();
    let a = client.new_entry(String::from("same"));
    let b = client.new_entry(String::from("same"));
    assert_ne!(a.id, b.id);
    assert_eq!(a.hash, b.hash);
}

#[test]
fn entry_clone_keeps_every_field() {
    let mut client = Client::new();
    client.push_entry(1, String::from("a"));
    let e = client.push_entry(2, String::from("b"));
    let copy = e.clone();
    assert_eq!(copy.index, e.index);
    assert_eq!(copy.id, e.id);
    assert_eq!(copy.prev, e.prev);
    assert_eq!(copy.hash, e.hash);
    assert_eq!(copy.data, e.data);
}

#[test]
fn documents_compare_by_every_field() {
    let a = Document { id: String::from("asdf"), revision: 0, hash: vec![0u8], data: String::from("{}") };
    let b = Document { id: String::from("asdf"), revision: 1, hash: vec![0u8], data: String::from("{}") };
    let c = Document { id: String::from("asdf"), revision: 0, hash: vec![0u8], data: String::from("{}") };
    assert!(a == c);
    assert!(a != b);
}
