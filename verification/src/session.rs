//! The per-connection protocol handler's decision core.
//!
//! One session serves one client: the transport decodes inbound
//! messages into [`Request`] values, `handle` commits the mutation to
//! the store and says what is delivered where, and the transport
//! performs the deliveries. Every resulting event reaches every
//! connected session exactly once: the requester as the direct reply,
//! everyone else via the hub's broadcast.

use vstd::prelude::*;
use crate::proto::Request;
use crate::proto::Response;
use crate::proto::clone_item;
use crate::proto::rename_all;
use crate::proto::complete_all;
use crate::store::Store;

verus! {

/// What one request leads to.
#[derive(Debug, PartialEq, Eq)]
pub enum Outcome {
    /// No event at all: neither the requester nor anyone else hears
    /// anything (removing an absent id, creating a present one).
    Silent,
    /// The event answers the requester only (a full-list query).
    Reply(Response),
    /// The event answers the requester and is broadcast to every
    /// other live session.
    ReplyBroadcast(Response),
}

/// Dispatches one decoded client request to the store and returns the
/// resulting event together with how it is to be delivered.
///
/// Renaming or completing an absent id leaves the store unchanged but
/// still yields the requested values as an event for everyone;
/// removing an absent id yields nothing at all. The store keeps its
/// invariant in every case.
pub fn handle(store: &mut Store, request: Request) -> (out: Outcome)
    requires
        old(store).wf(),
    ensures
        final(store).wf(),
        match request {
            Request::GetItems => {
                &&& *final(store) == *old(store)
                &&& out matches Outcome::Reply(Response::Items(v)) && v@ == old(store).snap()
            },
            Request::CreateItem(item) => if !old(store).contains_id(item.id) {
                &&& final(store).snap() == old(store).snap().push(item)
                &&& out matches Outcome::ReplyBroadcast(
                    Response::ItemCreated { item: it, index },
                ) && it == item && index == old(store).snap().len()
            } else {
                &&& *final(store) == *old(store)
                &&& out is Silent
            },
            Request::RemoveItem(id) => if old(store).contains_id(id) {
                &&& out matches Outcome::ReplyBroadcast(Response::ItemRemoved { id: rid, index })
                    && rid == id && index < old(store).snap().len() && old(store).snap()[
                    index as int
                ].id == id && final(store).snap() == old(store).snap().remove(index as int)
            } else {
                &&& *final(store) == *old(store)
                &&& out is Silent
            },
            Request::RenameItem { id, name } => {
                &&& final(store).snap() == rename_all(old(store).snap(), id, name)
                &&& !old(store).contains_id(id) ==> *final(store) == *old(store)
                &&& out matches Outcome::ReplyBroadcast(
                    Response::ItemRenamed { id: rid, name: rname },
                ) && rid == id && rname == name
            },
            Request::CompleteItem { id, completed } => {
                &&& final(store).snap() == complete_all(old(store).snap(), id, completed)
                &&& !old(store).contains_id(id) ==> *final(store) == *old(store)
                &&& out matches Outcome::ReplyBroadcast(
                    Response::ItemCompleted { id: rid, completed: rc },
                ) && rid == id && rc == completed
            },
        },
{
    match request {
        Request::GetItems => {
            let items = store.snapshot();
            Outcome::Reply(Response::Items(items))
        },
        Request::CreateItem(item) => {
            let copy = clone_item(&item);
            match store.create(item) {
                Some(index) => Outcome::ReplyBroadcast(Response::ItemCreated { item: copy, index }),
                None => Outcome::Silent,
            }
        },
        Request::RemoveItem(id) => {
            match store.remove(id) {
                Some(index) => Outcome::ReplyBroadcast(Response::ItemRemoved { id, index }),
                None => Outcome::Silent,
            }
        },
        Request::RenameItem { id, name } => {
            let sent = name.clone();
            let _found = store.rename(id, name);
            Outcome::ReplyBroadcast(Response::ItemRenamed { id, name: sent })
        },
        Request::CompleteItem { id, completed } => {
            let _found = store.set_completed(id, completed);
            Outcome::ReplyBroadcast(Response::ItemCompleted { id, completed })
        },
    }
}

} // verus!
