//! Hash tables and short lists that the stream bookkeeping rests on.

use crate::streams::StreamState;
use vstd::prelude::*;

verus! {

/// Streams by their number, in a `hashbrown::HashMap`.
#[verifier::external_body]
pub struct StreamTable {
    map: hashbrown::HashMap<u64, StreamState>,
}

/// What a stream table holds.
pub uninterp spec fn table_of(t: StreamTable) -> Map<u64, StreamState>;

/// `hashbrown::HashMap::new`: the new map is empty.
#[verifier::external_body]
pub(crate) fn table_new() -> (r: StreamTable)
    ensures
        table_of(r).is_empty(),
{
    StreamTable { map: hashbrown::HashMap::new() }
}

/// `hashbrown::HashMap::get`: a reference to the value at the key, if the map holds the key.
#[verifier::external_body]
pub(crate) fn table_get(t: &StreamTable, id: u64) -> (r: Option<&StreamState>)
    ensures
        match r {
            Some(s) => table_of(*t).contains_key(id) && *s == table_of(*t)[id],
            None => !table_of(*t).contains_key(id),
        },
{
    t.map.get(&id)
}

/// `hashbrown::HashMap::insert`: afterwards the map holds the value at the key and is otherwise
/// unchanged. The value that stood there before is dropped.
#[verifier::external_body]
pub(crate) fn table_insert(t: &mut StreamTable, id: u64, s: StreamState)
    ensures
        table_of(*final(t)) == table_of(*old(t)).insert(id, s),
{
    t.map.insert(id, s);
}

/// `hashbrown::HashMap::remove`: takes the key out of the map and returns the value that stood
/// there, if the map held the key.
#[verifier::external_body]
pub(crate) fn table_remove(t: &mut StreamTable, id: u64) -> (r: Option<StreamState>)
    ensures
        table_of(*final(t)) == table_of(*old(t)).remove(id),
        match r {
            Some(s) => table_of(*old(t)).contains_key(id) && s == table_of(*old(t))[id],
            None => !table_of(*old(t)).contains_key(id),
        },
{
    t.map.remove(&id)
}

/// `hashbrown::HashMap::keys`: every key of the map once, in an order that is left open.
#[verifier::external_body]
pub(crate) fn table_ids(t: &StreamTable) -> (r: Vec<u64>)
    ensures
        r@.no_duplicates(),
        forall|id: u64| #[trigger] r@.contains(id) <==> table_of(*t).contains_key(id),
{
    t.map.keys().copied().collect()
}

/// Stream numbers, in a `hashbrown::HashSet`.
#[verifier::external_body]
pub struct IdSet {
    set: hashbrown::HashSet<u64>,
}

/// What an id set holds.
pub uninterp spec fn ids_of(s: IdSet) -> Set<u64>;

/// `hashbrown::HashSet::new`: the new set is empty.
#[verifier::external_body]
pub(crate) fn ids_new() -> (r: IdSet)
    ensures
        ids_of(r) == Set::<u64>::empty(),
{
    IdSet { set: hashbrown::HashSet::new() }
}

/// `hashbrown::HashSet::insert`: afterwards the set holds the number as well.
#[verifier::external_body]
pub(crate) fn ids_insert(s: &mut IdSet, id: u64)
    ensures
        ids_of(*final(s)) == ids_of(*old(s)).insert(id),
{
    s.set.insert(id);
}

/// `hashbrown::HashSet::drain`: hands out every number of the set once, in an order that is
/// left open, and leaves the set empty.
#[verifier::external_body]
pub(crate) fn ids_drain(s: &mut IdSet) -> (r: Vec<u64>)
    ensures
        ids_of(*final(s)) == Set::<u64>::empty(),
        r@.no_duplicates(),
        forall|id: u64| #[trigger] r@.contains(id) <==> ids_of(*old(s)).contains(id),
{
    s.set.drain().collect()
}

/// Pairs of a tensor and a stream, in a `smallvec::SmallVec`.
#[verifier::external_body]
pub struct PairList {
    list: smallvec::SmallVec<[(u64, u64); 5]>,
}

/// The items of a pair list, in order.
pub uninterp spec fn pairs_of(v: PairList) -> Seq<(u64, u64)>;

/// `smallvec::SmallVec::new`: the new list is empty.
#[verifier::external_body]
pub(crate) fn pairs_new() -> (r: PairList)
    ensures
        pairs_of(r).len() == 0,
{
    PairList { list: smallvec::SmallVec::new() }
}

/// `smallvec::SmallVec::push`: appends the item.
#[verifier::external_body]
pub(crate) fn pairs_push(v: &mut PairList, p: (u64, u64))
    ensures
        pairs_of(*final(v)) == pairs_of(*old(v)).push(p),
{
    v.list.push(p);
}

/// `smallvec::SmallVec::as_slice`: the items as a slice.
#[verifier::external_body]
pub(crate) fn pairs_slice(v: &PairList) -> (r: &[(u64, u64)])
    ensures
        r@ == pairs_of(*v),
{
    v.list.as_slice()
}

} // verus!
