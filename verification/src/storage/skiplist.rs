//! The ordered map of `crossbeam_skiplist` that keeps one player's events by time key.
use vstd::prelude::*;
use std::sync::Arc;
use crossbeam_skiplist::SkipMap;
use crate::domain::log::{key_le, key_lt, CacheRecord};

verus! {

/// `crossbeam_skiplist::SkipMap`, an ordered map; its contents are `timeline_entries`.
#[verifier::external_type_specification]
#[verifier::external_body]
#[verifier::reject_recursive_types(K)]
#[verifier::reject_recursive_types(V)]
pub struct ExSkipMap<K, V>(SkipMap<K, V>);

/// One player's events in a season: a skip map from time key to event.
pub type Timeline = SkipMap<(i64, i64), Arc<CacheRecord>>;

/// One entry of a timeline: a time key and a shared handle of the event under it.
pub type TimelineEntry = ((i64, i64), Arc<CacheRecord>);

/// The time keys of a list of timeline entries.
pub open spec fn entry_keys(es: Seq<TimelineEntry>) -> Seq<(i64, i64)> {
    es.map_values(|e: TimelineEntry| e.0)
}

/// What a timeline holds: for each time key, the event stored under it.
pub uninterp spec fn timeline_entries(m: Timeline) -> Map<(i64, i64), CacheRecord>;

/// `SkipMap::new`: the new map holds nothing.
#[verifier::external_body]
pub(crate) fn timeline_new() -> (r: Timeline)
    ensures
        timeline_entries(r).dom().is_empty(),
{
    SkipMap::new()
}

/// `SkipMap::insert`: afterwards `key` maps to `record`; an entry with the same key is
/// replaced, all other entries stay.
#[verifier::external_body]
pub(crate) fn timeline_insert(m: &mut Timeline, key: (i64, i64), record: Arc<CacheRecord>)
    ensures
        timeline_entries(*final(m)) == timeline_entries(*old(m)).insert(key, *record),
{
    m.insert(key, record);
}

/// `SkipMap::front`, reduced to the key: the smallest key, or `None` for an empty map.
#[verifier::external_body]
pub(crate) fn timeline_front_key(m: &Timeline) -> (r: Option<(i64, i64)>)
    ensures
        r is None ==> timeline_entries(*m).dom().is_empty(),
        r matches Some(k) ==> timeline_entries(*m).dom().contains(k) && forall|k2: (i64, i64)|
            timeline_entries(*m).dom().contains(k2) ==> key_le(k, k2),
{
    m.front().map(|entry| *entry.key())
}

/// `SkipMap::remove`: afterwards `key` has no entry; all other entries stay.
#[verifier::external_body]
pub(crate) fn timeline_remove(m: &mut Timeline, key: &(i64, i64))
    ensures
        timeline_entries(*final(m)) == timeline_entries(*old(m)).remove(*key),
{
    m.remove(key);
}

/// `SkipMap::iter`, each entry as its key and a shared handle of its event: every entry
/// exactly once, by ascending key.
#[verifier::external_body]
pub(crate) fn timeline_records(m: &Timeline) -> (r: Vec<TimelineEntry>)
    ensures
        timeline_entries(*m).dom() == entry_keys(r@).to_set(),
        r@.len() == timeline_entries(*m).dom().len(),
        forall|i: int|
            0 <= i < r@.len() ==> timeline_entries(*m).dom().contains(#[trigger] r@[i].0)
                && timeline_entries(*m)[r@[i].0] == *r@[i].1,
        forall|i: int|
            0 <= i < r@.len() ==> (forall|j: int|
                i < j < r@.len() ==> key_lt(#[trigger] r@[i].0, #[trigger] r@[j].0)),
{
    m.iter().map(|entry| (*entry.key(), entry.value().clone())).collect()
}

} // verus!
