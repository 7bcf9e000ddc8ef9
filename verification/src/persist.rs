//! The persisted snapshot: a versioned envelope around the store's
//! contents in display order.
//!
//! The durable file holds one [`Archive`] value; reading and writing
//! the file, and the JSON framing, are the transport layer's task.
//! The array order on disk reconstructs both the map and the order
//! sequence on load. A file with an unrecognized schema version does
//! not decode into an [`Archive`] at all and is a fatal startup
//! error; a missing file simply means an empty store.

use vstd::prelude::*;
use crate::proto::Item;
use crate::proto::unique_ids;
use crate::store::Store;

verus! {

/// The payload of the current schema version: the items, ordered.
pub struct Data {
    pub items: Vec<Item>,
}

/// The versioned envelope that is written to durable storage.
pub enum Archive {
    V1(Data),
}

/// A point-in-time snapshot of the store under the current schema
/// version, ready to be serialized and written out.
pub fn archive(store: &Store) -> (a: Archive)
    requires
        store.wf(),
    ensures
        a matches Archive::V1(d) && d.items@ == store.snap(),
{
    Archive::V1(Data { items: store.snapshot() })
}

/// Rebuilds the store from a loaded snapshot. Two items sharing an
/// id mean a corrupt snapshot: None, a fatal startup error.
pub fn restore(a: Archive) -> (r: Option<Store>)
    ensures
        match r {
            Some(s) => a matches Archive::V1(d) && s.wf() && s.snap() == d.items@,
            None => a matches Archive::V1(d) && !unique_ids(d.items@),
        },
{
    match a {
        Archive::V1(d) => Store::from_items(d.items),
    }
}

} // verus!
