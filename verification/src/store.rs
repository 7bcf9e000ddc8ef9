//! The authoritative item store: a map from id to item together with
//! an explicit order sequence that fixes display order and the index
//! reported in creation and removal events.
//!
//! Invariant: the order sequence carries no duplicate and lists
//! exactly the keys of the map, and every item sits under its own id.

use vstd::prelude::*;
use std::collections::HashMap;
use crate::proto::Item;
use crate::proto::clone_item;
use crate::proto::has_id;
use crate::proto::unique_ids;
use crate::proto::rename_all;
use crate::proto::complete_all;
use crate::proto::with_name;
use crate::proto::with_completed;

verus! {

broadcast use vstd::std_specs::hash::group_hash_axioms;

/// The shared list: id-to-item map plus the order sequence.
pub struct Store {
    items: HashMap<u128, Item>,
    order: Vec<u128>,
}

impl Store {
    /// The id-to-item map, as a mathematical map.
    pub closed spec fn map_of(self) -> Map<u128, Item> {
        self.items@
    }

    /// The order sequence, as a mathematical sequence of ids.
    pub closed spec fn order_of(self) -> Seq<u128> {
        self.order@
    }

    /// Whether an item with the id is held.
    pub open spec fn contains_id(self, id: u128) -> bool {
        has_id(self.snap(), id)
    }

    /// The internal invariant: the order sequence has no duplicate,
    /// lists exactly the keys of the map, and every item sits under
    /// its own id.
    pub open spec fn wf(self) -> bool {
        &&& self.order_of().no_duplicates()
        &&& forall|id: u128|
            #![trigger self.map_of().dom().contains(id)]
            #![trigger self.order_of().contains(id)]
            self.map_of().dom().contains(id) <==> self.order_of().contains(id)
        &&& forall|id: u128| #[trigger]
            self.map_of().dom().contains(id) ==> self.map_of()[id].id == id
    }

    /// The store's contents in display order.
    pub closed spec fn snap(self) -> Seq<Item> {
        Seq::new(self.order@.len(), |j: int| self.items@[self.order@[j]])
    }

    /// In a well-formed store the snapshot carries each id once, the
    /// held ids are exactly the snapshot's ids, and the snapshot's
    /// j-th id is the order sequence's j-th entry.
    pub proof fn lemma_snap_ids(self)
        requires
            self.wf(),
        ensures
            self.snap().len() == self.order_of().len(),
            forall|j: int| 0 <= j < self.snap().len() ==> (#[trigger] self.snap()[j]).id
                == self.order_of()[j],
            unique_ids(self.snap()),
            forall|id: u128| #[trigger] has_id(self.snap(), id) <==> self.map_of().dom().contains(
                id,
            ),
    {
        assert forall|j: int| 0 <= j < self.snap().len() implies (#[trigger] self.snap()[j]).id
            == self.order_of()[j] by {
            assert(self.order_of().contains(self.order@[j]));
        }
        assert forall|id: u128| self.map_of().dom().contains(id) implies #[trigger] has_id(
            self.snap(),
            id,
        ) by {
            let j = choose|j: int| 0 <= j < self.order@.len() && self.order@[j] == id;
            assert(self.order_of().contains(id));
            assert(self.snap()[j].id == id);
        }
        assert forall|id: u128| #[trigger] has_id(self.snap(), id) implies self.map_of().dom().contains(id) by {
            let j = choose|j: int| 0 <= j < self.snap().len() && self.snap()[j].id == id;
            assert(self.order_of().contains(self.order@[j]));
            assert(self.snap()[j].id == self.order@[j]);
        }
    }

    /// An empty store.
    pub fn new() -> (s: Store)
        ensures
            s.wf(),
            s.snap() == Seq::<Item>::empty(),
    {
        let s = Store { items: HashMap::new(), order: Vec::new() };
        proof {
            assert(s.snap() =~= Seq::<Item>::empty());
        }
        s
    }

    /// Appends an item to the end of the order sequence and inserts it
    /// into the map; the returned index is the store's size before the
    /// call. An id already present is refused and nothing changes.
    pub fn create(&mut self, item: Item) -> (r: Option<usize>)
        requires
            old(self).wf(),
        ensures
            final(self).wf(),
            old(self).contains_id(item.id) ==> r is None && *final(self) == *old(self),
            !old(self).contains_id(item.id) ==> {
                &&& r matches Some(ix) && ix == old(self).snap().len()
                &&& final(self).snap() == old(self).snap().push(item)
                &&& final(self).contains_id(item.id)
            },
    {
        proof {
            self.lemma_snap_ids();
        }
        if self.items.contains_key(&item.id) {
            return None;
        }
        let ghost pre = *self;
        let ghost gitem = item;
        let index = self.order.len();
        let id = item.id;
        self.order.push(id);
        self.items.insert(id, item);
        proof {
            assert(!pre.order_of().contains(id));
            assert forall|x: u128|
                self.map_of().dom().contains(x) <==> self.order_of().contains(x) by {
                if x != id {
                    assert(self.order_of().contains(x) <==> pre.order_of().contains(x)) by {
                        if pre.order_of().contains(x) {
                            let j = choose|j: int|
                                0 <= j < pre.order@.len() && pre.order@[j] == x;
                            assert(self.order@[j] == x);
                        }
                        if self.order_of().contains(x) {
                            let j = choose|j: int|
                                0 <= j < self.order@.len() && self.order@[j] == x;
                            assert(j < pre.order@.len() && pre.order@[j] == x);
                        }
                    }
                } else {
                    assert(self.order@[pre.order@.len() as int] == id);
                }
            }
            assert(self.order_of().no_duplicates());
            assert(self.snap() =~= pre.snap().push(gitem)) by {
                assert forall|j: int| 0 <= j < pre.order@.len() implies self.snap()[j]
                    == pre.snap()[j] by {
                    assert(pre.order_of().contains(pre.order@[j]));
                    assert(pre.order@[j] != id);
                    assert(self.order@[j] == pre.order@[j]);
                }
            }
            assert(self.snap()[pre.snap().len() as int] == gitem);
            assert(has_id(self.snap(), gitem.id));
        }
        Some(index)
    }

    /// Scans the order sequence for the id; when present, removes the
    /// item from both the order sequence and the map and returns the
    /// index it held; when absent, returns None and changes nothing.
    pub fn remove(&mut self, id: u128) -> (r: Option<usize>)
        requires
            old(self).wf(),
        ensures
            final(self).wf(),
            !old(self).contains_id(id) ==> r is None && *final(self) == *old(self),
            old(self).contains_id(id) ==> {
                &&& r matches Some(ix)
                &&& ix < old(self).snap().len()
                &&& old(self).snap()[ix as int].id == id
                &&& final(self).snap() == old(self).snap().remove(ix as int)
                &&& !final(self).contains_id(id)
            },
    {
        proof {
            self.lemma_snap_ids();
        }
        let mut j: usize = 0;
        while j < self.order.len()
            invariant
                *self == *old(self),
                old(self).wf(),
                0 <= j <= self.order@.len(),
                forall|k: int| 0 <= k < j ==> self.order@[k] != id,
            decreases self.order@.len() - j,
        {
            if self.order[j] == id {
                let ghost pre = *self;
                proof {
                    assert(pre.order_of().contains(id));
                }
                self.order.remove(j);
                self.items.remove(&id);
                proof {
                    Self::lemma_removed(pre, *self, id, j as int);
                    pre.lemma_snap_ids();
                    self.lemma_snap_ids();
                }
                return Some(j);
            }
            j += 1;
        }
        proof {
            assert(!self.order_of().contains(id));
        }
        None
    }

    /// What removing position `j` (holding `id`) does to the store.
    proof fn lemma_removed(pre: Store, post: Store, id: u128, j: int)
        requires
            pre.wf(),
            0 <= j < pre.order@.len(),
            pre.order@[j] == id,
            post.order@ == pre.order@.remove(j),
            post.items@ == pre.items@.remove(id),
        ensures
            post.wf(),
            post.snap() == pre.snap().remove(j),
            !post.contains_id(id),
            pre.snap()[j].id == id,
    {
        pre.lemma_snap_ids();
        assert forall|x: u128|
            post.map_of().dom().contains(x) <==> post.order_of().contains(x) by {
            if x != id {
                if pre.order_of().contains(x) {
                    let k = choose|k: int| 0 <= k < pre.order@.len() && pre.order@[k] == x;
                    if k < j {
                        assert(post.order@[k] == x);
                    } else {
                        assert(post.order@[k - 1] == x);
                    }
                    assert(post.order_of().contains(x));
                }
                if post.order_of().contains(x) {
                    let k = choose|k: int| 0 <= k < post.order@.len() && post.order@[k] == x;
                    if k < j {
                        assert(pre.order@[k] == x);
                    } else {
                        assert(pre.order@[k + 1] == x);
                    }
                    assert(pre.order_of().contains(x));
                }
            } else {
                if post.order_of().contains(id) {
                    let k = choose|k: int| 0 <= k < post.order@.len() && post.order@[k] == id;
                    if k < j {
                        assert(pre.order@[k] == id && pre.order@[j] == id);
                    } else {
                        assert(pre.order@[k + 1] == id && pre.order@[j] == id);
                    }
                }
            }
        }
        assert(post.order_of().no_duplicates()) by {
            assert forall|a: int, b: int|
                0 <= a < b < post.order@.len() implies post.order@[a] != post.order@[b] by {
                let a0: int = if a < j { a } else { a + 1 };
                let b0: int = if b < j { b } else { b + 1 };
                assert(post.order@[a] == pre.order@[a0]);
                assert(post.order@[b] == pre.order@[b0]);
            }
        }
        assert(post.snap() =~= pre.snap().remove(j)) by {
            assert forall|k: int| 0 <= k < post.order@.len() implies post.snap()[k]
                == pre.snap().remove(j)[k] by {
                let k0: int = if k < j { k } else { k + 1 };
                assert(post.order@[k] == pre.order@[k0]);
                assert(pre.order_of().contains(pre.order@[k0]));
                assert(pre.order@[k0] != id);
            }
        }
        assert(pre.order_of().contains(id));
        assert(pre.snap()[j].id == pre.order_of()[j]);
        assert forall|x: u128| #[trigger]
            post.map_of().dom().contains(x) implies post.map_of()[x].id == x by {
            assert(pre.map_of().dom().contains(x));
            assert(post.items@[x] == pre.items@[x]);
        }
    }

    /// Updates the name of the item under the id, when one is held;
    /// returns whether one was. The order sequence never changes, and
    /// on a miss the store is left untouched.
    pub fn rename(&mut self, id: u128, name: String) -> (r: bool)
        requires
            old(self).wf(),
        ensures
            final(self).wf(),
            r == old(self).contains_id(id),
            final(self).snap() == rename_all(old(self).snap(), id, name),
            !r ==> *final(self) == *old(self),
    {
        proof {
            self.lemma_snap_ids();
        }
        let found = match self.items.get(&id) {
            Some(it) => Some(it.completed),
            None => None,
        };
        match found {
            Some(completed) => {
                let ghost pre = *self;
                self.items.insert(id, Item { id, name, completed });
                proof {
                    assert(pre.map_of().dom().contains(id));
                    assert(pre.map_of()[id].id == id);
                    Self::lemma_value_update(pre, *self, id, with_name(pre.items@[id], name));
                    assert(self.snap() =~= rename_all(pre.snap(), id, name)) by {
                        Self::lemma_snap_value_update(pre, *self, id);
                    }
                }
                true
            },
            None => {
                proof {
                    self.lemma_snap_ids();
                    assert(self.snap() =~= rename_all(self.snap(), id, name)) by {
                        assert forall|k: int| 0 <= k < self.snap().len() implies self.snap()[k].id
                            != id by {
                            assert(has_id(self.snap(), self.snap()[k].id));
                        }
                    }
                }
                false
            },
        }
    }

    /// Updates the completed flag of the item under the id, when one
    /// is held; returns whether one was. The order sequence never
    /// changes, and on a miss the store is left untouched.
    pub fn set_completed(&mut self, id: u128, completed: bool) -> (r: bool)
        requires
            old(self).wf(),
        ensures
            final(self).wf(),
            r == old(self).contains_id(id),
            final(self).snap() == complete_all(old(self).snap(), id, completed),
            !r ==> *final(self) == *old(self),
    {
        proof {
            self.lemma_snap_ids();
        }
        let found = match self.items.get(&id) {
            Some(it) => Some(it.name.clone()),
            None => None,
        };
        match found {
            Some(name) => {
                let ghost pre = *self;
                self.items.insert(id, Item { id, name, completed });
                proof {
                    assert(pre.map_of().dom().contains(id));
                    assert(pre.map_of()[id].id == id);
                    Self::lemma_value_update(pre, *self, id, with_completed(pre.items@[id], completed));
                    assert(self.snap() =~= complete_all(pre.snap(), id, completed)) by {
                        Self::lemma_snap_value_update(pre, *self, id);
                    }
                }
                true
            },
            None => {
                proof {
                    self.lemma_snap_ids();
                    assert(self.snap() =~= complete_all(self.snap(), id, completed)) by {
                        assert forall|k: int| 0 <= k < self.snap().len() implies self.snap()[k].id
                            != id by {
                            assert(has_id(self.snap(), self.snap()[k].id));
                        }
                    }
                }
                false
            },
        }
    }

    /// Replacing the item under a held id by another item under the
    /// same id keeps the store well-formed.
    proof fn lemma_value_update(pre: Store, post: Store, id: u128, it: Item)
        requires
            pre.wf(),
            pre.map_of().dom().contains(id),
            it.id == id,
            post.order@ == pre.order@,
            post.items@ == pre.items@.insert(id, it),
        ensures
            post.wf(),
    {
        assert forall|x: u128|
            post.map_of().dom().contains(x) <==> post.order_of().contains(x) by {
            assert(pre.map_of().dom().contains(x) <==> pre.order_of().contains(x));
        }
    }

    /// After such a replacement, each snapshot slot either kept its
    /// item (its id differs) or holds the new item (its id is `id`).
    proof fn lemma_snap_value_update(pre: Store, post: Store, id: u128)
        requires
            pre.wf(),
            pre.map_of().dom().contains(id),
            post.order@ == pre.order@,
            forall|x: u128| x != id ==> pre.items@.contains_key(x)
                ==> post.items@[x] == pre.items@[x],
            post.items@.dom() == pre.items@.dom().insert(id),
        ensures
            forall|k: int| 0 <= k < post.snap().len() ==> pre.snap()[k].id != id
                ==> post.snap()[k] == pre.snap()[k],
            forall|k: int| 0 <= k < pre.snap().len() ==> (#[trigger] pre.snap()[k]).id
                == pre.order@[k],
            post.snap().len() == pre.snap().len(),
    {
        pre.lemma_snap_ids();
        assert forall|k: int|
            0 <= k < post.snap().len() && pre.snap()[k].id != id implies post.snap()[k]
            == pre.snap()[k] by {
            assert(pre.order_of().contains(pre.order@[k]));
            assert(pre.snap()[k].id == pre.order@[k]);
        }
    }

    /// A point-in-time copy of the items in display order, built by
    /// walking the order sequence; an id unexpectedly absent from the
    /// map is skipped (it cannot occur in a well-formed store).
    pub fn snapshot(&self) -> (r: Vec<Item>)
        requires
            self.wf(),
        ensures
            r@ == self.snap(),
    {
        let mut out: Vec<Item> = Vec::new();
        let mut j: usize = 0;
        while j < self.order.len()
            invariant
                self.wf(),
                0 <= j <= self.order@.len(),
                out@ == self.snap().take(j as int),
            decreases self.order@.len() - j,
        {
            proof {
                assert(self.order_of().contains(self.order@[j as int]));
            }
            match self.items.get(&self.order[j]) {
                Some(it) => {
                    out.push(clone_item(it));
                },
                None => {},
            }
            proof {
                assert(out@ =~= self.snap().take(j as int + 1));
            }
            j += 1;
        }
        proof {
            assert(out@ =~= self.snap());
        }
        out
    }

    /// The number of items held.
    pub fn len(&self) -> (n: usize)
        ensures
            n == self.snap().len(),
    {
        self.order.len()
    }

    /// Rebuilds a store from an ordered item sequence, as read back
    /// from a persisted snapshot; the sequence order reconstructs both
    /// the map and the order sequence. Two items sharing an id mean a
    /// corrupt snapshot: None, and nothing is built.
    pub fn from_items(list: Vec<Item>) -> (r: Option<Store>)
        ensures
            match r {
                Some(s) => s.wf() && s.snap() == list@ && unique_ids(list@),
                None => !unique_ids(list@),
            },
    {
        let mut s = Store::new();
        let mut i: usize = 0;
        proof {
            assert(list@.take(0) =~= Seq::<Item>::empty());
        }
        while i < list.len()
            invariant
                0 <= i <= list@.len(),
                s.wf(),
                s.snap() == list@.take(i as int),
                unique_ids(list@.take(i as int)),
            decreases list@.len() - i,
        {
            let ghost pre = s;
            let it = clone_item(&list[i]);
            let created = s.create(it);
            proof {
                pre.lemma_snap_ids();
            }
            if created.is_none() {
                proof {
                    assert(it == list@[i as int]);
                    assert(pre.contains_id(list@[i as int].id));
                    assert(has_id(pre.snap(), list@[i as int].id));
                    let j = choose|j: int|
                        0 <= j < pre.snap().len() && pre.snap()[j].id == list@[i as int].id;
                    assert(list@.take(i as int)[j] == pre.snap()[j]);
                    assert(list@[j].id == list@[i as int].id && 0 <= j < i as int);
                    assert(!unique_ids(list@));
                }
                return None;
            }
            proof {
                assert(s.snap() =~= list@.take(i as int + 1));
                s.lemma_snap_ids();
            }
            i += 1;
        }
        proof {
            assert(list@.take(list@.len() as int) =~= list@);
        }
        Some(s)
    }

    /// A well-formed store is determined by its snapshot: equal
    /// snapshots mean the same map and the same order sequence. With
    /// `from_items` and `snapshot` this is the persistence round trip:
    /// a store rebuilt from a persisted snapshot carries every item's
    /// id, name, completed flag and relative order exactly.
    pub proof fn lemma_snap_determines(a: Store, b: Store)
        requires
            a.wf(),
            b.wf(),
            a.snap() == b.snap(),
        ensures
            a.order_of() == b.order_of(),
            a.map_of() == b.map_of(),
    {
        a.lemma_snap_ids();
        b.lemma_snap_ids();
        assert(a.order_of() =~= b.order_of()) by {
            assert forall|j: int| 0 <= j < a.order@.len() implies a.order@[j] == b.order@[j] by {
                assert(a.snap()[j].id == a.order_of()[j]);
                assert(b.snap()[j].id == b.order_of()[j]);
            }
        }
        assert(a.map_of() =~= b.map_of()) by {
            assert forall|id: u128| a.map_of().dom().contains(id) implies b.map_of().dom().contains(
                id,
            ) && a.map_of()[id] == b.map_of()[id] by {
                assert(a.order_of().contains(id));
                let j = choose|j: int| 0 <= j < a.order@.len() && a.order@[j] == id;
                assert(a.snap()[j] == a.items@[id]);
                assert(b.order@[j] == id);
                assert(b.order_of().contains(id));
                assert(b.snap()[j] == b.items@[id]);
            }
            assert forall|id: u128| b.map_of().dom().contains(id) implies a.map_of().dom().contains(
                id,
            ) by {
                assert(b.order_of().contains(id));
                let j = choose|j: int| 0 <= j < b.order@.len() && b.order@[j] == id;
                assert(a.order@[j] == id);
                assert(a.order_of().contains(id));
            }
        }
    }
}

} // verus!
