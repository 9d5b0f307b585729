//! The in-memory cache of recent events, grouped by season, team and player and ordered
//! by time key within each player.
use vstd::prelude::*;
use std::sync::Arc;
use crate::domain::log::{key_le, key_lt, CacheRecord};
use crate::storage::owners::{
    owner_of, owner_timelines, owners_keys, owners_new, owners_put, owners_take, owners_view,
    Owner, OwnerKey, Owners,
};
use crate::storage::skiplist::{
    entry_keys, timeline_entries, timeline_front_key, timeline_insert, timeline_new,
    timeline_records, timeline_remove, Timeline, TimelineEntry,
};

verus! {

/// Where an event sits in the cache: season, team, player and time key.
pub type RecordKey = (Seq<char>, Seq<char>, Seq<char>, (i64, i64));

/// The cache key of an event.
pub open spec fn record_key(r: CacheRecord) -> RecordKey {
    (r.log.season@, r.log.team@, r.log.player@, r.time_key.pair())
}

/// A removal marker `marker` removes the event under `k`: same season, team and player,
/// and a time key at or before the marker's.
pub open spec fn removed_by(marker: CacheRecord, k: RecordKey) -> bool {
    &&& k.0 == marker.log.season@
    &&& k.1 == marker.log.team@
    &&& k.2 == marker.log.player@
    &&& key_le(k.3, marker.time_key.pair())
}

/// The cache `m` once the marker `marker` has been applied.
pub open spec fn after_removal(m: Map<RecordKey, CacheRecord>, marker: CacheRecord) -> Map<
    RecordKey,
    CacheRecord,
> {
    m.remove_keys(Set::new(|k: RecordKey| removed_by(marker, k)))
}

/// The event behind a shared handle.
pub open spec fn shared_record(a: Arc<CacheRecord>) -> CacheRecord {
    *a
}

/// The events behind a list of shared handles.
pub open spec fn records_of(v: Seq<Arc<CacheRecord>>) -> Seq<CacheRecord> {
    v.map_values(|a: Arc<CacheRecord>| *a)
}

/// `rs` lists every event of `season` in the cache `m` exactly once, and nothing else.
pub open spec fn lists_season(
    m: Map<RecordKey, CacheRecord>,
    season: Seq<char>,
    rs: Seq<CacheRecord>,
) -> bool {
    &&& forall|p: int|
        0 <= p < rs.len() ==> {
            let k = record_key(#[trigger] rs[p]);
            &&& m.dom().contains(k)
            &&& m[k] == rs[p]
            &&& k.0 == season
        }
    &&& forall|k: RecordKey|
        m.dom().contains(k) && k.0 == season ==> exists|p: int|
            0 <= p < rs.len() && record_key(#[trigger] rs[p]) == k
    &&& forall|p: int, q: int|
        0 <= p < rs.len() && 0 <= q < rs.len() && p != q ==> record_key(#[trigger] rs[p])
            != record_key(#[trigger] rs[q])
}

/// In `rs`, the events of one season, team and player come by ascending time key.
pub open spec fn ordered_per_owner(rs: Seq<CacheRecord>) -> bool {
    forall|p: int, q: int|
        0 <= p < q < rs.len() && owner_part(record_key(#[trigger] rs[p])) == owner_part(
            record_key(#[trigger] rs[q]),
        ) ==> key_lt(rs[p].time_key.pair(), rs[q].time_key.pair())
}

/// The in-memory cache of events: for each season, team and player, a timeline of events
/// by time key. Its contents are a map from cache key to event.
pub struct RuntimeStore {
    owners: Owners,
}

/// The owner part of a cache key.
pub open spec fn owner_part(k: RecordKey) -> OwnerKey {
    (k.0, k.1, k.2)
}

/// The events held by the timelines `tl`, by cache key.
pub open spec fn events_of(tl: Map<OwnerKey, Map<(i64, i64), CacheRecord>>) -> Map<RecordKey, CacheRecord> {
    Map::new(
        |k: RecordKey| tl.dom().contains(owner_part(k)) && tl[owner_part(k)].dom().contains(k.3),
        |k: RecordKey| tl[owner_part(k)][k.3],
    )
}

/// Every timeline is finite and holds each event under its own owner and time key.
pub open spec fn timelines_wf(tl: Map<OwnerKey, Map<(i64, i64), CacheRecord>>) -> bool {
    forall|o: OwnerKey|
        #[trigger] tl.dom().contains(o) ==> tl[o].dom().finite() && forall|t: (i64, i64)|
            #[trigger] tl[o].dom().contains(t) ==> record_key(tl[o][t]) == (o.0, o.1, o.2, t)
}

fn key_at_most(a: (i64, i64), b: (i64, i64)) -> (r: bool)
    ensures
        r == key_le(a, b),
{
    a.0 < b.0 || (a.0 == b.0 && a.1 <= b.1)
}

fn owner_of_record(r: &CacheRecord) -> (o: Owner)
    ensures
        owner_of(o) == owner_part(record_key(*r)),
{
    (r.log.season.clone(), r.log.team.clone(), r.log.player.clone())
}

impl RuntimeStore {
    /// The cached events, by cache key.
    pub closed spec fn events(&self) -> Map<RecordKey, CacheRecord> {
        events_of(owner_timelines(self.owners))
    }

    /// The cache's timelines are finite and each event sits under its own key.
    pub closed spec fn wf(&self) -> bool {
        timelines_wf(owner_timelines(self.owners))
    }

    /// Every cached event sits under its own key.
    pub proof fn lemma_keys_match(&self)
        requires
            self.wf(),
        ensures
            forall|k: RecordKey| #[trigger] self.events().dom().contains(k) ==> record_key(self.events()[k]) == k,
    {
        let tl = owner_timelines(self.owners);
        assert forall|k: RecordKey| #[trigger] self.events().dom().contains(k) implies record_key(
            self.events()[k],
        ) == k by {
            assert(tl.dom().contains(owner_part(k)));
            assert(tl[owner_part(k)].dom().contains(k.3));
        }
    }

    /// An empty cache.
    pub fn new() -> (r: RuntimeStore)
        ensures
            r.wf(),
            r.events() == Map::<RecordKey, CacheRecord>::empty(),
    {
        let r = RuntimeStore { owners: owners_new() };
        assert(r.events() =~= Map::<RecordKey, CacheRecord>::empty());
        r
    }

    /// Stores `record` under its key, replacing an event with the same key.
    pub fn log(&mut self, record: CacheRecord)
        requires
            old(self).wf(),
        ensures
            final(self).wf(),
            final(self).events() == old(self).events().insert(record_key(record), record),
    {
        self.log_arc(Arc::new(record));
    }

    /// Stores the shared event `record` under its key, replacing an event with the same key.
    pub fn log_arc(&mut self, record: Arc<CacheRecord>)
        requires
            old(self).wf(),
        ensures
            final(self).wf(),
            final(self).events() == old(self).events().insert(record_key(*record), *record),
    {
        let ghost rec = shared_record(record);
        let ghost key = record_key(rec);
        let ghost tl0 = owner_timelines(self.owners);
        let owner = owner_of_record(&record);
        let time_key = (record.time_key.0, record.time_key.1);
        let mut times = match owners_take(&mut self.owners, &owner) {
            Some(t) => t,
            None => timeline_new(),
        };
        let ghost e0 = timeline_entries(times);
        proof {
            if !tl0.dom().contains(owner_part(key)) {
                assert(e0 =~= Map::<(i64, i64), CacheRecord>::empty());
            }
        }
        timeline_insert(&mut times, time_key, record);
        owners_put(&mut self.owners, owner, times);
        proof {
            let tl = owner_timelines(self.owners);
            let o = owner_part(key);
            assert(tl == tl0.insert(o, e0.insert(key.3, rec)));
            assert forall|q: OwnerKey| #[trigger] tl.dom().contains(q) implies tl[q].dom().finite()
                && forall|t: (i64, i64)|
                #[trigger] tl[q].dom().contains(t) ==> record_key(tl[q][t]) == (q.0, q.1, q.2, t) by {
                if q == o {
                    if tl0.dom().contains(o) {
                        assert(tl0[o].dom().finite());
                    }
                    assert forall|t: (i64, i64)| #[trigger] tl[q].dom().contains(t) implies record_key(
                        tl[q][t],
                    ) == (q.0, q.1, q.2, t) by {
                        if t != key.3 {
                            assert(tl0[o].dom().contains(t));
                        }
                    }
                } else {
                    assert(tl0.dom().contains(q));
                }
            }
            assert(events_of(tl) =~= events_of(tl0).insert(key, rec)) by {
                assert forall|k: RecordKey| #[trigger] events_of(tl).dom().contains(k) <==> events_of(tl0).insert(key, rec).dom().contains(k) by {
                    if owner_part(k) == o && k.3 != key.3 && events_of(tl0).dom().contains(k) {
                        assert(tl0.dom().contains(o));
                    }
                }
            }
        }
    }

    /// Applies the removal marker `marker`: every event of the same season, team and
    /// player whose time key is at or before the marker's leaves the cache.
    pub fn remove(&mut self, marker: &CacheRecord)
        requires
            old(self).wf(),
        ensures
            final(self).wf(),
            final(self).events() == after_removal(old(self).events(), *marker),
    {
        let ghost tl0 = owner_timelines(self.owners);
        let ghost o = owner_part(record_key(*marker));
        let owner = owner_of_record(marker);
        let target = (marker.time_key.0, marker.time_key.1);
        match owners_take(&mut self.owners, &owner) {
            None => {
                proof {
                    assert(owner_timelines(self.owners) =~= tl0);
                    assert(after_removal(events_of(tl0), *marker) =~= events_of(tl0));
                }
            },
            Some(mut times) => {
                let ghost e0 = timeline_entries(times);
                proof {
                    assert(tl0.dom().contains(o));
                    assert(e0.dom().finite());
                }
                loop
                    invariant
                        e0.dom().finite(),
                        target == marker.time_key.pair(),
                        ({
                            let e = timeline_entries(times);
                            &&& e.dom().subset_of(e0.dom())
                            &&& forall|t: (i64, i64)| #[trigger] e.dom().contains(t) ==> e[t] == e0[t]
                            &&& forall|t: (i64, i64)|
                                e0.dom().contains(t) && !e.dom().contains(t) ==> key_le(t, target)
                        }),
                    ensures
                        timeline_entries(times) == e0.remove_keys(
                            Set::new(|t: (i64, i64)| key_le(t, target)),
                        ),
                    decreases timeline_entries(times).dom().len(),
                {
                    let ghost e = timeline_entries(times);
                    proof {
                        vstd::set_lib::lemma_len_subset(e.dom(), e0.dom());
                    }
                    match timeline_front_key(&times) {
                        Some(k) => {
                            if key_at_most(k, target) {
                                timeline_remove(&mut times, &k);
                            } else {
                                proof {
                                    assert(e =~= e0.remove_keys(
                                        Set::new(|t: (i64, i64)| key_le(t, target)),
                                    )) by {
                                        assert forall|t: (i64, i64)| e.dom().contains(t) implies !key_le(t, target) by {
                                            assert(key_le(k, t));
                                        }
                                    }
                                }
                                break;
                            }
                        },
                        None => {
                            proof {
                                assert(e =~= e0.remove_keys(
                                    Set::new(|t: (i64, i64)| key_le(t, target)),
                                ));
                            }
                            break;
                        },
                    }
                }
                let ghost e1 = timeline_entries(times);
                owners_put(&mut self.owners, owner, times);
                proof {
                    let tl = owner_timelines(self.owners);
                    assert(tl == tl0.insert(o, e1));
                    assert(e1.dom().finite()) by {
                        vstd::set_lib::lemma_len_subset(e1.dom(), e0.dom());
                    }
                    assert forall|q: OwnerKey| #[trigger] tl.dom().contains(q) implies tl[q].dom().finite()
                        && forall|t: (i64, i64)|
                        #[trigger] tl[q].dom().contains(t) ==> record_key(tl[q][t]) == (q.0, q.1, q.2, t) by {
                        if q == o {
                            assert forall|t: (i64, i64)| #[trigger] tl[q].dom().contains(t) implies record_key(
                                tl[q][t],
                            ) == (q.0, q.1, q.2, t) by {
                                assert(tl0[o].dom().contains(t));
                            }
                        } else {
                            assert(tl0.dom().contains(q));
                        }
                    }
                    assert(events_of(tl) =~= after_removal(events_of(tl0), *marker));
                }
            },
        }
    }

    /// Every cached event of `season`, each exactly once. The events of one season, team
    /// and player come by ascending time key; the players follow one another in no
    /// particular order.
    pub fn view(&self, season: &str) -> (r: Vec<Arc<CacheRecord>>)
        requires
            self.wf(),
        ensures
            lists_season(self.events(), season@, records_of(r@)),
            ordered_per_owner(records_of(r@)),
    {
        let season = String::from_str(season);
        let ghost tl = owner_timelines(self.owners);
        let ghost events = self.events();
        let keys = owners_keys(&self.owners);
        let ghost ks = keys@.map_values(|o: Owner| owner_of(o));
        let mut out: Vec<Arc<CacheRecord>> = Vec::new();
        let n = keys.len();
        let mut i: usize = 0;
        while i < n
            invariant
                n == keys@.len(),
                tl == owner_timelines(self.owners),
                events == self.events(),
                events == events_of(tl),
                timelines_wf(tl),
                ks == keys@.map_values(|o: Owner| owner_of(o)),
                ks.no_duplicates(),
                ks.to_set() == tl.dom(),
                0 <= i <= n,
                forall|p: int|
                    0 <= p < out@.len() ==> {
                        let k = record_key(*#[trigger] out@[p]);
                        &&& events.dom().contains(k)
                        &&& events[k] == *out@[p]
                        &&& k.0 == season@
                        &&& exists|t: int| 0 <= t < i && #[trigger] ks[t] == owner_part(k)
                    },
                forall|t: int, k: RecordKey|
                    0 <= t < i && #[trigger] ks[t] == owner_part(k) && #[trigger] events.dom().contains(k)
                        && k.0 == season@ ==> exists|p: int|
                        0 <= p < out@.len() && record_key(*#[trigger] out@[p]) == k,
                forall|p: int, q: int|
                    0 <= p < out@.len() && 0 <= q < out@.len() && p != q ==> record_key(
                        *#[trigger] out@[p],
                    ) != record_key(*#[trigger] out@[q]),
                forall|p: int, q: int|
                    0 <= p < q < out@.len() && owner_part(record_key(*#[trigger] out@[p]))
                        == owner_part(record_key(*#[trigger] out@[q])) ==> key_lt(
                        (*out@[p]).time_key.pair(),
                        (*out@[q]).time_key.pair(),
                    ),
            decreases n - i,
        {
            proof {
                assert(ks[i as int] == owner_of(keys@[i as int]));
                assert(tl.dom().contains(ks[i as int]));
            }
            if keys[i].0 == season {
                let listed = owners_view(&self.owners, &keys[i], timeline_listing);
                match listed {
                    Some(entries) => {
                        let ghost before = out@;
                        let ghost es = entries@;
                        append_handles(&mut out, entries);
                        proof {
                            lemma_view_step(tl, ks, i as int, season@, before, es, out@);
                        }
                    },
                    None => {},
                }
            } else {
                proof {
                    assert forall|t: int, k: RecordKey|
                        0 <= t < i + 1 && #[trigger] ks[t] == owner_part(k) && #[trigger] events.dom().contains(k)
                            && k.0 == season@ implies exists|p: int|
                        0 <= p < out@.len() && record_key(*#[trigger] out@[p]) == k by {
                        if t == i {
                            assert(false);
                        }
                    }
                }
            }
            i = i + 1;
        }
        proof {
            let rs = records_of(out@);
            assert forall|p: int| 0 <= p < rs.len() implies #[trigger] rs[p] == *out@[p] by {}
            assert forall|p: int| 0 <= p < rs.len() implies {
                let k = record_key(#[trigger] rs[p]);
                &&& events.dom().contains(k)
                &&& events[k] == rs[p]
                &&& k.0 == season@
            } by {
                assert(rs[p] == *out@[p]);
            }
            assert forall|k: RecordKey| events.dom().contains(k) && k.0 == season@ implies exists|p: int|
                0 <= p < rs.len() && record_key(#[trigger] rs[p]) == k by {
                assert(tl.dom().contains(owner_part(k)));
                assert(ks.to_set().contains(owner_part(k)));
                let t = choose|t: int| 0 <= t < ks.len() && ks[t] == owner_part(k);
                let p = choose|p: int| 0 <= p < out@.len() && record_key(*#[trigger] out@[p]) == k;
                assert(rs[p] == *out@[p]);
            }
            assert forall|p: int, q: int|
                0 <= p < rs.len() && 0 <= q < rs.len() && p != q implies record_key(#[trigger] rs[p])
                != record_key(#[trigger] rs[q]) by {
                assert(rs[p] == *out@[p]);
                assert(rs[q] == *out@[q]);
            }
            assert forall|p: int, q: int|
                0 <= p < q < rs.len() && owner_part(record_key(#[trigger] rs[p])) == owner_part(
                    record_key(#[trigger] rs[q]),
                ) implies key_lt(rs[p].time_key.pair(), rs[q].time_key.pair()) by {
                assert(rs[p] == *out@[p]);
                assert(rs[q] == *out@[q]);
            }
        }
        out
    }
}

/// `es` lists the entries of the timeline contents `e`, each once, by ascending time key.
pub open spec fn lists_timeline(e: Map<(i64, i64), CacheRecord>, es: Seq<TimelineEntry>) -> bool {
    &&& e.dom() == entry_keys(es).to_set()
    &&& forall|q: int|
        0 <= q < es.len() ==> e.dom().contains(#[trigger] es[q].0) && e[es[q].0] == *es[q].1
    &&& forall|q: int|
        0 <= q < es.len() ==> (forall|q2: int|
            q < q2 < es.len() ==> key_lt(#[trigger] es[q].0, #[trigger] es[q2].0))
}

/// The entries of a timeline, by ascending time key.
fn timeline_listing(t: &Timeline) -> (v: Vec<TimelineEntry>)
    ensures
        lists_timeline(timeline_entries(*t), v@),
{
    timeline_records(t)
}

/// Appends the handles of `entries` to `out`, in order.
fn append_handles(out: &mut Vec<Arc<CacheRecord>>, entries: Vec<TimelineEntry>)
    ensures
        final(out)@ == old(out)@ + entries@.map_values(|e: TimelineEntry| e.1),
{
    let ghost start = out@;
    let ghost es = entries@;
    for e in it: entries
        invariant
            es == it.seq(),
            out@ == start + es.take(it.index()).map_values(|e: TimelineEntry| e.1),
    {
        out.push(e.1);
        proof {
            assert(es.take(it.index() + 1).map_values(|e: TimelineEntry| e.1) =~= es.take(
                it.index(),
            ).map_values(|e: TimelineEntry| e.1).push(e.1));
        }
    }
    assert(es.take(es.len() as int) == es);
}

/// Appending the events of the `i`-th owner (of season `season`) keeps the listing
/// invariant of `RuntimeStore::view`.
proof fn lemma_view_step(
    tl: Map<OwnerKey, Map<(i64, i64), CacheRecord>>,
    ks: Seq<OwnerKey>,
    i: int,
    season: Seq<char>,
    before: Seq<Arc<CacheRecord>>,
    es: Seq<TimelineEntry>,
    after: Seq<Arc<CacheRecord>>,
)
    requires
        timelines_wf(tl),
        ks.no_duplicates(),
        0 <= i < ks.len(),
        tl.dom().contains(ks[i]),
        ks[i].0 == season,
        after == before + es.map_values(|e: TimelineEntry| e.1),
        tl[ks[i]].dom() == entry_keys(es).to_set(),
        forall|q: int|
            0 <= q < es.len() ==> tl[ks[i]].dom().contains(#[trigger] es[q].0) && tl[ks[i]][es[q].0]
                == *es[q].1,
        forall|q: int|
            0 <= q < es.len() ==> (forall|q2: int|
                q < q2 < es.len() ==> key_lt(#[trigger] es[q].0, #[trigger] es[q2].0)),
        forall|p: int|
            0 <= p < before.len() ==> {
                let k = record_key(*#[trigger] before[p]);
                &&& events_of(tl).dom().contains(k)
                &&& events_of(tl)[k] == *before[p]
                &&& k.0 == season
                &&& exists|t: int| 0 <= t < i && #[trigger] ks[t] == owner_part(k)
            },
        forall|t: int, k: RecordKey|
            0 <= t < i && #[trigger] ks[t] == owner_part(k) && #[trigger] events_of(tl).dom().contains(k)
                && k.0 == season ==> exists|p: int|
                0 <= p < before.len() && record_key(*#[trigger] before[p]) == k,
        forall|p: int, q: int|
            0 <= p < before.len() && 0 <= q < before.len() && p != q ==> record_key(
                *#[trigger] before[p],
            ) != record_key(*#[trigger] before[q]),
        forall|p: int, q: int|
            0 <= p < q < before.len() && owner_part(record_key(*#[trigger] before[p])) == owner_part(
                record_key(*#[trigger] before[q]),
            ) ==> key_lt((*before[p]).time_key.pair(), (*before[q]).time_key.pair()),
    ensures
        forall|p: int|
            0 <= p < after.len() ==> {
                let k = record_key(*#[trigger] after[p]);
                &&& events_of(tl).dom().contains(k)
                &&& events_of(tl)[k] == *after[p]
                &&& k.0 == season
                &&& exists|t: int| 0 <= t < i + 1 && #[trigger] ks[t] == owner_part(k)
            },
        forall|t: int, k: RecordKey|
            0 <= t < i + 1 && #[trigger] ks[t] == owner_part(k) && #[trigger] events_of(tl).dom().contains(k)
                && k.0 == season ==> exists|p: int|
                0 <= p < after.len() && record_key(*#[trigger] after[p]) == k,
        forall|p: int, q: int|
            0 <= p < after.len() && 0 <= q < after.len() && p != q ==> record_key(
                *#[trigger] after[p],
            ) != record_key(*#[trigger] after[q]),
        forall|p: int, q: int|
            0 <= p < q < after.len() && owner_part(record_key(*#[trigger] after[p])) == owner_part(
                record_key(*#[trigger] after[q]),
            ) ==> key_lt((*after[p]).time_key.pair(), (*after[q]).time_key.pair()),
{
    let o = ks[i];
    let e = tl[o];
    let b = before.len() as int;
    let events = events_of(tl);
    assert(after.len() == b + es.len());
    assert forall|q: int| 0 <= q < es.len() implies record_key(*#[trigger] es[q].1) == (
        o.0,
        o.1,
        o.2,
        es[q].0,
    ) && events.dom().contains(record_key(*es[q].1)) && events[record_key(*es[q].1)] == *es[q].1 by {
        assert(e.dom().contains(es[q].0));
    }
    assert forall|p: int| 0 <= p < after.len() implies {
        let k = record_key(*#[trigger] after[p]);
        &&& events.dom().contains(k)
        &&& events[k] == *after[p]
        &&& k.0 == season
        &&& exists|t: int| 0 <= t < i + 1 && #[trigger] ks[t] == owner_part(k)
    } by {
        if p < b {
            assert(after[p] == before[p]);
            let k = record_key(*before[p]);
            let t = choose|t: int| 0 <= t < i && #[trigger] ks[t] == owner_part(k);
            assert(ks[t] == owner_part(k));
        } else {
            let q = p - b;
            assert(after[p] == es[q].1);
            let k = record_key(*es[q].1);
            assert(ks[i] == owner_part(k));
        }
    }
    assert forall|t: int, k: RecordKey|
        0 <= t < i + 1 && #[trigger] ks[t] == owner_part(k) && #[trigger] events.dom().contains(k) && k.0
            == season implies exists|p: int|
        0 <= p < after.len() && record_key(*#[trigger] after[p]) == k by {
        if t < i {
            let p = choose|p: int| 0 <= p < before.len() && record_key(*#[trigger] before[p]) == k;
            assert(after[p] == before[p]);
        } else {
            assert(e.dom().contains(k.3));
            assert(entry_keys(es).to_set().contains(k.3));
            let q = choose|q: int| 0 <= q < es.len() && #[trigger] entry_keys(es)[q] == k.3;
            assert(entry_keys(es)[q] == es[q].0);
            assert(after[b + q] == es[q].1);
            assert(record_key(*after[b + q]) == k);
        }
    }
    assert forall|p: int, q: int|
        0 <= p < after.len() && 0 <= q < after.len() && p != q implies record_key(
        *#[trigger] after[p],
    ) != record_key(*#[trigger] after[q]) by {
        if p < b && q < b {
            assert(after[p] == before[p] && after[q] == before[q]);
        } else if p >= b && q >= b {
            assert(after[p] == es[p - b].1 && after[q] == es[q - b].1);
            if p < q {
                assert(key_lt(es[p - b].0, es[q - b].0));
            } else {
                assert(key_lt(es[q - b].0, es[p - b].0));
            }
        } else if p < b {
            assert(after[p] == before[p] && after[q] == es[q - b].1);
            let k = record_key(*before[p]);
            let t = choose|t: int| 0 <= t < i && #[trigger] ks[t] == owner_part(k);
            assert(ks[t] != ks[i]);
        } else {
            assert(after[q] == before[q] && after[p] == es[p - b].1);
            let k = record_key(*before[q]);
            let t = choose|t: int| 0 <= t < i && #[trigger] ks[t] == owner_part(k);
            assert(ks[t] != ks[i]);
        }
    }
    assert forall|p: int, q: int|
        0 <= p < q < after.len() && owner_part(record_key(*#[trigger] after[p])) == owner_part(
            record_key(*#[trigger] after[q]),
        ) implies key_lt((*after[p]).time_key.pair(), (*after[q]).time_key.pair()) by {
        if q < b {
            assert(after[p] == before[p] && after[q] == before[q]);
        } else if p >= b {
            assert(after[p] == es[p - b].1 && after[q] == es[q - b].1);
            assert(key_lt(es[p - b].0, es[q - b].0));
            assert(record_key(*es[p - b].1).3 == es[p - b].0);
            assert(record_key(*es[q - b].1).3 == es[q - b].0);
        } else {
            assert(after[p] == before[p] && after[q] == es[q - b].1);
            assert(record_key(*es[q - b].1) == (o.0, o.1, o.2, es[q - b].0));
            let k = record_key(*before[p]);
            let t = choose|t: int| 0 <= t < i && #[trigger] ks[t] == owner_part(k);
            assert(ks[t] != ks[i]);
        }
    }
}

impl Default for RuntimeStore {
    /// An empty cache.
    fn default() -> (r: RuntimeStore)
        ensures
            r.wf(),
            r.events() == Map::<RecordKey, CacheRecord>::empty(),
    {
        RuntimeStore::new()
    }
}

} // verus!

verus! {

/// Logging an event makes it part of what `view` lists for its season.
pub proof fn lemma_logged_event_is_listed(
    before: Map<RecordKey, CacheRecord>,
    record: CacheRecord,
    listing: Seq<CacheRecord>,
)
    requires
        lists_season(before.insert(record_key(record), record), record.log.season@, listing),
    ensures
        exists|p: int| 0 <= p < listing.len() && listing[p] == record,
{
    let after = before.insert(record_key(record), record);
    let k = record_key(record);
    assert(after.dom().contains(k));
    let p = choose|p: int| 0 <= p < listing.len() && record_key(#[trigger] listing[p]) == k;
    assert(listing[p] == after[k]);
}

/// Logging two events with the same key keeps only the later one.
pub proof fn lemma_same_key_replaces(
    m: Map<RecordKey, CacheRecord>,
    first: CacheRecord,
    second: CacheRecord,
)
    requires
        record_key(first) == record_key(second),
    ensures
        m.insert(record_key(first), first).insert(record_key(second), second) == m.insert(
            record_key(second),
            second,
        ),
{
    assert(m.insert(record_key(first), first).insert(record_key(second), second) =~= m.insert(
        record_key(second),
        second,
    ));
}

/// A removal marker takes away exactly the events of its own season, team and player
/// at or before its time key; every other event stays as it was.
pub proof fn lemma_removal_is_exact(m: Map<RecordKey, CacheRecord>, marker: CacheRecord, k: RecordKey)
    ensures
        after_removal(m, marker).dom().contains(k) <==> (m.dom().contains(k) && !removed_by(
            marker,
            k,
        )),
        after_removal(m, marker).dom().contains(k) ==> after_removal(m, marker)[k] == m[k],
{
}

/// A removal marker for a season, team and player without cached events changes nothing.
pub proof fn lemma_removal_of_unknown_owner(m: Map<RecordKey, CacheRecord>, marker: CacheRecord)
    requires
        forall|k: RecordKey|
            #[trigger] m.dom().contains(k) ==> !(k.0 == marker.log.season@ && k.1
                == marker.log.team@ && k.2 == marker.log.player@),
    ensures
        after_removal(m, marker) == m,
{
    assert(after_removal(m, marker) =~= m);
}

/// Two listings of the same season hold the same number of events.
pub proof fn lemma_listing_length(
    m: Map<RecordKey, CacheRecord>,
    season: Seq<char>,
    a: Seq<CacheRecord>,
    b: Seq<CacheRecord>,
)
    requires
        lists_season(m, season, a),
        lists_season(m, season, b),
    ensures
        a.len() == b.len(),
{
    let ka = a.map_values(|r: CacheRecord| record_key(r));
    let kb = b.map_values(|r: CacheRecord| record_key(r));
    assert(ka.no_duplicates()) by {
        assert forall|p: int, q: int| 0 <= p < ka.len() && 0 <= q < ka.len() && p != q implies ka[p] != ka[q] by {
            assert(record_key(a[p]) != record_key(a[q]));
        }
    }
    assert(kb.no_duplicates()) by {
        assert forall|p: int, q: int| 0 <= p < kb.len() && 0 <= q < kb.len() && p != q implies kb[p] != kb[q] by {
            assert(record_key(b[p]) != record_key(b[q]));
        }
    }
    assert(ka.to_set() =~= kb.to_set()) by {
        assert forall|k: RecordKey| ka.to_set().contains(k) implies kb.to_set().contains(k) by {
            let p = choose|p: int| 0 <= p < ka.len() && ka[p] == k;
            assert(record_key(a[p]) == k);
            let q = choose|q: int| 0 <= q < b.len() && record_key(#[trigger] b[q]) == k;
            assert(kb[q] == k);
        }
        assert forall|k: RecordKey| kb.to_set().contains(k) implies ka.to_set().contains(k) by {
            let p = choose|p: int| 0 <= p < kb.len() && kb[p] == k;
            assert(record_key(b[p]) == k);
            let q = choose|q: int| 0 <= q < a.len() && record_key(#[trigger] a[q]) == k;
            assert(ka[q] == k);
        }
    }
    ka.unique_seq_to_set();
    kb.unique_seq_to_set();
}

} // verus!
