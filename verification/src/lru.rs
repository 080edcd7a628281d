//! The recency-ordered map that holds the traces.
//!
//! The map is `schnellru::LruMap`, with a limiter that never asks for an
//! eviction: which entries leave is decided by the store, which pops the
//! oldest entries itself. Nothing in this file is proved. Each function
//! states what the map's source shows of the call it makes, over one model
//! of the map's contents: its entries from the most recently used to the
//! least recently used.

use vstd::prelude::*;
use crate::trace::Trace;

verus! {

/// What the map holds under a trace id: the trace, and the estimated bytes
/// that were counted for the entry when it came in.
#[derive(Debug)]
pub struct Slot {
    pub trace: Trace,
    pub charge: usize,
}

/// The map from trace ids to slots, in order of use.
#[verifier::external_body]
pub struct Lru {
    inner: schnellru::LruMap<Vec<u8>, Slot, schnellru::UnlimitedCompact>,
}

/// The entries of the map, the most recently used first.
pub uninterp spec fn lru_entries(map: Lru) -> Seq<(Seq<u8>, Slot)>;

/// Whether no key occurs twice among the entries.
pub open spec fn distinct_keys(entries: Seq<(Seq<u8>, Slot)>) -> bool {
    forall|i: int, j: int|
        0 <= i < j < entries.len() ==> (#[trigger] entries[i]).0 != (#[trigger] entries[j]).0
}

/// Whether an entry has the given key.
pub open spec fn has_key(entries: Seq<(Seq<u8>, Slot)>, key: Seq<u8>) -> bool {
    exists|i: int| 0 <= i < entries.len() && (#[trigger] entries[i]).0 == key
}

/// Where the entry with the given key stands.
pub open spec fn key_index(entries: Seq<(Seq<u8>, Slot)>, key: Seq<u8>) -> int {
    choose|i: int| 0 <= i < entries.len() && (#[trigger] entries[i]).0 == key
}

/// What an insertion may leave of the entries `before`: the new entry in
/// front where it was taken, then the `kept` most recently used of the old
/// entries, for some number `kept`.
pub open spec fn insert_outcome(
    before: Seq<(Seq<u8>, Slot)>,
    key: Seq<u8>,
    slot: Slot,
    inserted: bool,
    after: Seq<(Seq<u8>, Slot)>,
) -> bool {
    exists|kept: int|
        0 <= kept <= before.len() && after == (if inserted {
            seq![(key, slot)]
        } else {
            Seq::empty()
        }) + #[trigger] before.take(kept)
}

/// `LruMap::new`: a map without entries.
#[verifier::external_body]
pub(crate) fn lru_new() -> (map: Lru)
    ensures
        lru_entries(map) == Seq::<(Seq<u8>, Slot)>::empty(),
{
    Lru { inner: schnellru::LruMap::new(schnellru::UnlimitedCompact) }
}

/// `LruMap::len`: the number of entries.
#[verifier::external_body]
pub(crate) fn lru_len(map: &Lru) -> (n: usize)
    ensures
        n == lru_entries(*map).len(),
{
    map.inner.len()
}

/// `LruMap::get`: finds the entry with the given key and makes it the most
/// recently used. The other entries keep their order.
#[verifier::external_body]
pub(crate) fn lru_get<'a>(map: &'a mut Lru, key: &[u8]) -> (r: Option<&'a Slot>)
    requires
        distinct_keys(lru_entries(*old(map))),
    ensures
        r is Some <==> has_key(lru_entries(*old(map)), key@),
        r is Some ==> {
            let before = lru_entries(*old(map));
            let i = key_index(before, key@);
            &&& *r->0 == before[i].1
            &&& lru_entries(*final(map)) == seq![before[i]] + before.remove(i)
        },
        r is None ==> lru_entries(*final(map)) == lru_entries(*old(map)),
{
    match map.inner.get(key) {
        Some(slot) => Some(&*slot),
        None => None,
    }
}

/// `LruMap::remove`: takes the entry with the given key out of the map and
/// hands its slot back. The other entries keep their order.
#[verifier::external_body]
pub(crate) fn lru_remove(map: &mut Lru, key: &[u8]) -> (r: Option<Slot>)
    requires
        distinct_keys(lru_entries(*old(map))),
    ensures
        r is Some <==> has_key(lru_entries(*old(map)), key@),
        r is Some ==> {
            let before = lru_entries(*old(map));
            let i = key_index(before, key@);
            &&& r->0 == before[i].1
            &&& lru_entries(*final(map)) == before.remove(i)
        },
        r is None ==> lru_entries(*final(map)) == lru_entries(*old(map)),
{
    map.inner.remove(key)
}

/// `LruMap::insert`, for a key that the map does not hold: the new entry
/// becomes the most recently used, and `true` comes back. Where the map
/// cannot grow, it makes room by letting go of its least recently used
/// entries, as many as it takes; it may then still fail to take the new
/// entry, and `false` comes back. What stays of the old entries is always
/// the most recently used ones, in their order.
#[verifier::external_body]
pub(crate) fn lru_insert(map: &mut Lru, key: Vec<u8>, slot: Slot) -> (inserted: bool)
    requires
        !has_key(lru_entries(*old(map)), key@),
    ensures
        insert_outcome(lru_entries(*old(map)), key@, slot, inserted, lru_entries(*final(map))),
{
    map.inner.insert(key, slot)
}

/// `LruMap::pop_oldest`: takes the least recently used entry out of the map
/// and hands it back; `None` where the map is empty.
#[verifier::external_body]
pub(crate) fn lru_pop_oldest(map: &mut Lru) -> (r: Option<(Vec<u8>, Slot)>)
    ensures
        r is Some <==> lru_entries(*old(map)).len() > 0,
        r is Some ==> {
            let before = lru_entries(*old(map));
            let popped = r.unwrap();
            &&& (popped.0@, popped.1) == before.last()
            &&& lru_entries(*final(map)) == before.drop_last()
        },
        r is None ==> lru_entries(*final(map)) == lru_entries(*old(map)),
{
    map.inner.pop_oldest()
}

/// `LruMap::iter`: the slots of the map, the most recently used first.
#[verifier::external_body]
pub(crate) fn lru_slots(map: &Lru) -> (r: Vec<&Slot>)
    ensures
        r@.len() == lru_entries(*map).len(),
        forall|i: int| 0 <= i < r@.len() ==> *(#[trigger] r@[i]) == lru_entries(*map)[i].1,
{
    map.inner.iter().map(|(_, slot)| slot).collect()
}

} // verus!
