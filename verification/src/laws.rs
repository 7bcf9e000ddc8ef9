//! The synchronization laws: what holds across whole runs of the
//! engine, proved over the same sequence model the operation
//! contracts use.

use vstd::prelude::*;
use crate::proto::Item;
use crate::proto::Response;
use crate::proto::has_id;
use crate::proto::unique_ids;
use crate::proto::first_hit;
use crate::proto::lemma_first_hit;
use crate::proto::rename_all;
use crate::proto::complete_all;
use crate::proto::rename_first;
use crate::proto::complete_first;
use crate::proto::remove_first;
use crate::replica::apply_event;

verus! {

/// The snapshot after a run of creations: each one appends its item
/// when the id is new and leaves the list alone when it is taken.
pub open spec fn create_fold(s: Seq<Item>, new: Seq<Item>) -> Seq<Item>
    decreases new.len(),
{
    if new.len() == 0 {
        s
    } else {
        create_fold(
            if has_id(s, new[0].id) {
                s
            } else {
                s.push(new[0])
            },
            new.drop_first(),
        )
    }
}

/// Creation order. A run of creations with fresh, pairwise distinct
/// ids succeeds throughout: the snapshot afterwards is the old
/// snapshot followed by the new items in creation order, and the
/// index reported for the i-th creation — the store's size at that
/// instant — is the count of items already held, `s.len() + i`.
/// Indices reflect append order and are never reused within the run.
pub proof fn lemma_creation_order(s: Seq<Item>, new: Seq<Item>)
    requires
        unique_ids(new),
        forall|i: int| 0 <= i < new.len() ==> !has_id(s, (#[trigger] new[i]).id),
    ensures
        create_fold(s, new) == s + new,
        forall|i: int| 0 <= i < new.len() ==> (#[trigger] create_fold(s, new.take(i))).len()
            == s.len() + i,
    decreases new.len(),
{
    if new.len() == 0 {
        assert(create_fold(s, new) =~= s + new);
    } else {
        let first = new[0];
        let rest = new.drop_first();
        assert(!has_id(s, first.id));
        let s1 = s.push(first);
        assert forall|i: int| 0 <= i < rest.len() implies !has_id(s1, (#[trigger] rest[i]).id) by {
            assert(rest[i] == new[i + 1]);
            assert(new[i + 1].id != new[0].id);
            if has_id(s1, rest[i].id) {
                let j = choose|j: int| 0 <= j < s1.len() && s1[j].id == rest[i].id;
                if j < s.len() {
                    assert(has_id(s, rest[i].id));
                }
            }
        }
        assert forall|i: int, j: int| 0 <= i < j < rest.len() implies (#[trigger] rest[i]).id != (
        #[trigger] rest[j]).id by {
            assert(rest[i] == new[i + 1] && rest[j] == new[j + 1]);
        }
        lemma_creation_order(s1, rest);
        assert(create_fold(s, new) == create_fold(s1, rest));
        assert(s1 + rest =~= s + new);
    }
    assert forall|i: int| 0 <= i < new.len() implies (#[trigger] create_fold(
        s,
        new.take(i),
    )).len() == s.len() + i by {
        let pre = new.take(i);
        assert forall|a: int, b: int| 0 <= a < b < pre.len() implies (#[trigger] pre[a]).id != (
        #[trigger] pre[b]).id by {
            assert(pre[a] == new[a] && pre[b] == new[b]);
        }
        assert forall|j: int| 0 <= j < pre.len() implies !has_id(s, (#[trigger] pre[j]).id) by {
            assert(pre[j] == new[j]);
        }
        lemma_creation_order(s, pre);
    }
}

/// Under pairwise distinct ids, a position holding the id is the
/// first (and only) one holding it.
pub proof fn lemma_first_hit_unique(s: Seq<Item>, id: u128, j: int)
    requires
        unique_ids(s),
        0 <= j < s.len(),
        s[j].id == id,
    ensures
        first_hit(s, id) == j,
{
    lemma_first_hit(s, id);
    assert(has_id(s, id));
    let f = first_hit(s, id);
    if f < j {
        assert(s[f].id == s[j].id);
    }
}

/// A creation event reconstructs the server's list: inserting the
/// broadcast item at the broadcast index — the length of the list the
/// server appended to — is exactly appending it.
pub proof fn lemma_sync_create(s: Seq<Item>, item: Item, index: usize)
    requires
        index == s.len(),
    ensures
        apply_event(s, Response::ItemCreated { item, index }) == s.push(item),
{
    assert(s.insert(index as int, item) =~= s.push(item));
}

/// A removal event reconstructs the server's list: when ids are
/// pairwise distinct, removing the first item carrying the id removes
/// exactly the position the server removed.
pub proof fn lemma_sync_remove(s: Seq<Item>, id: u128, index: usize)
    requires
        unique_ids(s),
        index < s.len(),
        s[index as int].id == id,
    ensures
        apply_event(s, Response::ItemRemoved { id, index }) == s.remove(index as int),
{
    assert(has_id(s, id));
    lemma_first_hit_unique(s, id, index as int);
    assert(remove_first(s, id) == s.remove(index as int));
}

/// A rename event reconstructs the server's list: when ids are
/// pairwise distinct, renaming the first item carrying the id is the
/// same as renaming every item carrying it — the server's effect —
/// and an absent id changes nothing on either side.
pub proof fn lemma_sync_rename(s: Seq<Item>, id: u128, name: String)
    requires
        unique_ids(s),
    ensures
        apply_event(s, Response::ItemRenamed { id, name }) == rename_all(s, id, name),
{
    lemma_first_hit(s, id);
    if has_id(s, id) {
        let f = first_hit(s, id);
        assert forall|j: int| 0 <= j < s.len() && j != f implies (#[trigger] s[j]).id != id by {
            if s[j].id == id {
                lemma_first_hit_unique(s, id, j);
            }
        }
        assert(rename_first(s, id, name) =~= rename_all(s, id, name));
    } else {
        assert(rename_first(s, id, name) =~= rename_all(s, id, name));
    }
}

/// A completion event reconstructs the server's list, exactly as a
/// rename event does.
pub proof fn lemma_sync_complete(s: Seq<Item>, id: u128, completed: bool)
    requires
        unique_ids(s),
    ensures
        apply_event(s, Response::ItemCompleted { id, completed }) == complete_all(
            s,
            id,
            completed,
        ),
{
    lemma_first_hit(s, id);
    if has_id(s, id) {
        let f = first_hit(s, id);
        assert forall|j: int| 0 <= j < s.len() && j != f implies (#[trigger] s[j]).id != id by {
            if s[j].id == id {
                lemma_first_hit_unique(s, id, j);
            }
        }
        assert(complete_first(s, id, completed) =~= complete_all(s, id, completed));
    } else {
        assert(complete_first(s, id, completed) =~= complete_all(s, id, completed));
    }
}

} // verus!
