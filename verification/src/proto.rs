//! Wire-level data model: items, client requests, server responses,
//! and the sequence-level transition functions the contracts speak of.

use vstd::prelude::*;

verus! {

/// A named, completable entry in the shared list. The id is a
/// client-assigned 128-bit identifier, immutable once created.
#[derive(Debug, Clone, PartialEq, Eq)]
pub struct Item {
    pub id: u128,
    pub name: String,
    pub completed: bool,
}

/// A client request, one per inbound message.
#[derive(Debug, Clone, PartialEq, Eq)]
pub enum Request {
    GetItems,
    CreateItem(Item),
    RemoveItem(u128),
    RenameItem { id: u128, name: String },
    CompleteItem { id: u128, completed: bool },
}

/// A server event: the reply to a request, also what is broadcast to
/// the other live sessions.
#[derive(Debug, Clone, PartialEq, Eq)]
pub enum Response {
    Items(Vec<Item>),
    ItemCreated { item: Item, index: usize },
    ItemRemoved { id: u128, index: usize },
    ItemRenamed { id: u128, name: String },
    ItemCompleted { id: u128, completed: bool },
}

/// An exact copy of an item, equal to it as a value.
pub fn clone_item(it: &Item) -> (r: Item)
    ensures
        r == *it,
{
    Item { id: it.id, name: it.name.clone(), completed: it.completed }
}

/// Whether some item of `s` carries the id.
pub open spec fn has_id(s: Seq<Item>, id: u128) -> bool {
    exists|j: int| 0 <= j < s.len() && s[j].id == id
}

/// Whether no two items of `s` share an id.
pub open spec fn unique_ids(s: Seq<Item>) -> bool {
    forall|i: int, j: int| 0 <= i < j < s.len() ==> s[i].id != s[j].id
}

/// The item with its name replaced.
pub open spec fn with_name(it: Item, name: String) -> Item {
    Item { id: it.id, name: name, completed: it.completed }
}

/// The item with its completed flag replaced.
pub open spec fn with_completed(it: Item, completed: bool) -> Item {
    Item { id: it.id, name: it.name, completed: completed }
}

/// Every item carrying the id renamed; the others untouched.
pub open spec fn rename_all(s: Seq<Item>, id: u128, name: String) -> Seq<Item> {
    Seq::new(s.len(), |j: int| if s[j].id == id { with_name(s[j], name) } else { s[j] })
}

/// Every item carrying the id re-flagged; the others untouched.
pub open spec fn complete_all(s: Seq<Item>, id: u128, completed: bool) -> Seq<Item> {
    Seq::new(s.len(), |j: int| if s[j].id == id { with_completed(s[j], completed) } else { s[j] })
}

/// The position of the first item carrying the id; `s.len()` when none
/// does.
pub open spec fn first_hit(s: Seq<Item>, id: u128) -> int
    decreases s.len(),
{
    if s.len() == 0 {
        0
    } else if s[0].id == id {
        0
    } else {
        1 + first_hit(s.drop_first(), id)
    }
}

/// What `first_hit` returns: the least position carrying the id, or
/// the length when the id is absent.
pub proof fn lemma_first_hit(s: Seq<Item>, id: u128)
    ensures
        0 <= first_hit(s, id) <= s.len(),
        first_hit(s, id) < s.len() ==> s[first_hit(s, id)].id == id,
        forall|k: int| 0 <= k < first_hit(s, id) ==> s[k].id != id,
        has_id(s, id) <==> first_hit(s, id) < s.len(),
    decreases s.len(),
{
    if s.len() == 0 {
    } else if s[0].id == id {
    } else {
        let t = s.drop_first();
        lemma_first_hit(t, id);
        assert forall|k: int| 0 <= k < first_hit(s, id) implies s[k].id != id by {
            if k > 0 {
                assert(t[k - 1] == s[k]);
            }
        }
        if has_id(s, id) {
            let j = choose|j: int| 0 <= j < s.len() && s[j].id == id;
            assert(t[j - 1] == s[j]);
            assert(has_id(t, id));
        }
        if has_id(t, id) {
            let j = choose|j: int| 0 <= j < t.len() && t[j].id == id;
            assert(s[j + 1] == t[j]);
            assert(has_id(s, id));
        }
    }
}

/// The list with the first item carrying the id removed; the list
/// itself when the id is absent.
pub open spec fn remove_first(s: Seq<Item>, id: u128) -> Seq<Item> {
    if has_id(s, id) {
        s.remove(first_hit(s, id))
    } else {
        s
    }
}

/// The list with the first item carrying the id renamed; the list
/// itself when the id is absent.
pub open spec fn rename_first(s: Seq<Item>, id: u128, name: String) -> Seq<Item> {
    if has_id(s, id) {
        s.update(first_hit(s, id), with_name(s[first_hit(s, id)], name))
    } else {
        s
    }
}

/// The list with the first item carrying the id re-flagged; the list
/// itself when the id is absent.
pub open spec fn complete_first(s: Seq<Item>, id: u128, completed: bool) -> Seq<Item> {
    if has_id(s, id) {
        s.update(first_hit(s, id), with_completed(s[first_hit(s, id)], completed))
    } else {
        s
    }
}

} // verus!
