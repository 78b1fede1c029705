use rustc_hash::FxHashMap;
use uuid::Uuid;
use vstd::prelude::*;

verus! {

/// What an index holds: the place that stands under each identifier that
/// has one.
pub uninterp spec fn index_entries(index: FxHashMap<Uuid, usize>) -> Map<Uuid, usize>;

/// Calls `FxHashMap::default`, which makes an index that holds nothing.
#[verifier::external_body]
pub(crate) fn index_new() -> (index: FxHashMap<Uuid, usize>)
    ensures
        forall|id: Uuid| !index_entries(index).contains_key(id),
{
    FxHashMap::default()
}

/// Calls `insert` of the index, which puts `at` under `id`, in place of any
/// place that stood there, and leaves every other identifier as it was.
#[verifier::external_body]
pub(crate) fn index_insert(index: &mut FxHashMap<Uuid, usize>, id: Uuid, at: usize)
    ensures
        index_entries(*final(index)) == index_entries(*old(index)).insert(id, at),
{
    index.insert(id, at);
}

/// Calls `remove` of the index, which takes out what stands under `id`, if
/// anything does, and leaves every other identifier as it was.
#[verifier::external_body]
pub(crate) fn index_remove(index: &mut FxHashMap<Uuid, usize>, id: &Uuid)
    ensures
        index_entries(*final(index)) == index_entries(*old(index)).remove(*id),
{
    index.remove(id);
}

/// Calls `get` of the index, which hands out the place under `id` where
/// there is one.
#[verifier::external_body]
pub(crate) fn index_get(index: &FxHashMap<Uuid, usize>, id: &Uuid) -> (at: Option<usize>)
    ensures
        at == (if index_entries(*index).contains_key(*id) {
            Some(index_entries(*index)[*id])
        } else {
            None
        }),
{
    index.get(id).copied()
}

/// The index gives every identifier of the list its place in the list, and
/// holds no other identifier.
pub open spec fn places(index: Map<Uuid, usize>, ids: Seq<Uuid>) -> bool {
    &&& forall|i: int|
        0 <= i < ids.len() ==> index.contains_key(#[trigger] ids[i]) && index[ids[i]] == i
    &&& forall|id: Uuid| #[trigger]
        index.contains_key(id) ==> index[id] < ids.len() && ids[index[id] as int] == id
}

/// An identifier that the list does not hold yet, put at its end, gets the
/// place behind the last.
pub proof fn lemma_places_pushed(index: Map<Uuid, usize>, ids: Seq<Uuid>, id: Uuid, at: usize)
    requires
        places(index, ids),
        at == ids.len(),
        forall|i: int| 0 <= i < ids.len() ==> #[trigger] ids[i] != id,
    ensures
        places(index.insert(id, at), ids.push(id)),
{
    let grown = ids.push(id);
    let index2 = index.insert(id, at);
    assert forall|i: int| 0 <= i < grown.len() implies index2.contains_key(#[trigger] grown[i])
        && index2[grown[i]] == i by {
        if i < ids.len() {
            assert(grown[i] == ids[i]);
        }
    }
    assert forall|other: Uuid| #[trigger] index2.contains_key(other) implies index2[other]
        < grown.len() && grown[index2[other] as int] == other by {
        if other != id {
            assert(index.contains_key(other));
            assert(grown[index[other] as int] == ids[index[other] as int]);
        }
    }
}

} // verus!
