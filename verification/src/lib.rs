//! A client-side append-only event log: entries are buffered locally, chained
//! by content hash, and reconciled against the total order that a single
//! authority assigns.

pub mod checksum;
pub mod client;
pub mod document;
pub mod entry;
pub mod error;
