//! The back node's batch processing: messages grouped by key, events ordered by time key.
use vstd::prelude::*;
use crate::domain::log::{key_le, CacheRecord};
use crate::storage::runtime::{after_removal, owner_part, record_key, removed_by, RecordKey};

verus! {

/// A consumed message as the worker sees it: its key and its payload, each possibly absent.
pub type RawMessage = (Option<Vec<u8>>, Option<Vec<u8>>);

/// The payloads of a batch that were published under one key, in batch order.
pub struct KeyedPayloads {
    pub key: Vec<u8>,
    pub payloads: Vec<Vec<u8>>,
}

/// A message with both a key and a payload; the others are skipped.
pub open spec fn usable(m: RawMessage) -> bool {
    m.0 is Some && m.1 is Some
}

/// The bytes of each of a list of byte strings.
pub open spec fn byte_views(v: Seq<Vec<u8>>) -> Seq<Seq<u8>> {
    v.map_values(|b: Vec<u8>| b@)
}

/// The distinct keys of the usable messages of `batch`, in order of first appearance.
pub open spec fn batch_keys(batch: Seq<RawMessage>) -> Seq<Seq<u8>>
    decreases batch.len(),
{
    if batch.len() == 0 {
        Seq::empty()
    } else {
        let prefix = batch_keys(batch.drop_last());
        let m = batch.last();
        if usable(m) && !prefix.contains(m.0.unwrap()@) {
            prefix.push(m.0.unwrap()@)
        } else {
            prefix
        }
    }
}

/// The payloads of the usable messages of `batch` with key `key`, in batch order.
pub open spec fn payloads_for(batch: Seq<RawMessage>, key: Seq<u8>) -> Seq<Seq<u8>>
    decreases batch.len(),
{
    if batch.len() == 0 {
        Seq::empty()
    } else {
        let prefix = payloads_for(batch.drop_last(), key);
        let m = batch.last();
        if usable(m) && m.0.unwrap()@ == key {
            prefix.push(m.1.unwrap()@)
        } else {
            prefix
        }
    }
}

/// `groups` holds, for each key of `batch` in order of first appearance, its payloads.
pub open spec fn grouped(batch: Seq<RawMessage>, groups: Seq<KeyedPayloads>) -> bool {
    &&& groups.len() == batch_keys(batch).len()
    &&& forall|i: int|
        0 <= i < groups.len() ==> (#[trigger] groups[i]).key@ == batch_keys(batch)[i]
            && byte_views(groups[i].payloads@) == payloads_for(batch, groups[i].key@)
}

fn bytes_equal(a: &Vec<u8>, b: &Vec<u8>) -> (r: bool)
    ensures
        r == (a@ == b@),
{
    if a.len() != b.len() {
        return false;
    }
    let mut i: usize = 0;
    while i < a.len()
        invariant
            a@.len() == b@.len(),
            0 <= i <= a@.len(),
            forall|k: int| 0 <= k < i ==> a@[k] == b@[k],
        decreases a@.len() - i,
    {
        if a[i] != b[i] {
            return false;
        }
        i = i + 1;
    }
    assert(a@ =~= b@);
    true
}

fn find_key(groups: &Vec<KeyedPayloads>, key: &Vec<u8>) -> (r: Option<usize>)
    ensures
        r matches Some(i) ==> i < groups@.len() && groups@[i as int].key@ == key@,
        r is None ==> forall|i: int| 0 <= i < groups@.len() ==> (#[trigger] groups@[i]).key@ != key@,
{
    let mut i: usize = 0;
    while i < groups.len()
        invariant
            0 <= i <= groups@.len(),
            forall|k: int| 0 <= k < i ==> (#[trigger] groups@[k]).key@ != key@,
        decreases groups@.len() - i,
    {
        if bytes_equal(&groups[i].key, key) {
            return Some(i);
        }
        i = i + 1;
    }
    None
}

/// Groups the messages of a batch by key. Messages without a key or without a payload
/// are skipped; keys come in order of first appearance, payloads in batch order.
pub fn group_by_key(batch: Vec<RawMessage>) -> (r: Vec<KeyedPayloads>)
    ensures
        grouped(batch@, r@),
        forall|i: int|
            0 <= i < r@.len() ==> byte_views((#[trigger] r@[i]).payloads@) == batch@.filter(
                has_key(r@[i].key@),
            ).map_values(|m: RawMessage| payload_bytes(m)),
        forall|j: int|
            0 <= j < batch@.len() && usable(#[trigger] batch@[j]) ==> exists|i: int|
                0 <= i < r@.len() && (#[trigger] r@[i]).key@ == batch@[j].0.unwrap()@,
{
    let ghost all = batch@;
    let mut groups: Vec<KeyedPayloads> = Vec::new();
    for m in it: batch
        invariant
            all == it.seq(),
            grouped(all.take(it.index()), groups@),
    {
        let ghost prefix = all.take(it.index());
        let ghost next = all.take(it.index() + 1);
        proof {
            assert(next.drop_last() == prefix);
            assert(next.last() == m);
        }
        let ghost before = groups@;
        match m {
            (Some(key), Some(payload)) => {
                match find_key(&groups, &key) {
                    Some(i) => {
                        let ghost pv = payload@;
                        groups[i].payloads.push(payload);
                        proof {
                            lemma_batch_keys_distinct(prefix);
                            assert(groups@.len() == before.len());
                            assert(batch_keys(next) == batch_keys(prefix));
                            assert(batch_keys(prefix).contains(key@)) by {
                                assert(batch_keys(prefix)[i as int] == key@);
                            }
                            assert forall|j: int| 0 <= j < groups@.len() implies (#[trigger] groups@[j]).key@
                                == batch_keys(next)[j] && byte_views(groups@[j].payloads@)
                                == payloads_for(next, groups@[j].key@) by {
                                if j == i {
                                    assert(byte_views(groups@[j].payloads@) =~= byte_views(
                                        before[j].payloads@,
                                    ).push(pv));
                                    assert(payloads_for(next, key@) == payloads_for(prefix, key@).push(pv));
                                } else {
                                    assert(groups@[j] == before[j]);
                                    assert(batch_keys(prefix)[j] != batch_keys(prefix)[i as int]);
                                    assert(payloads_for(next, groups@[j].key@) == payloads_for(prefix, groups@[j].key@));
                                }
                            }
                        }
                    },
                    None => {
                        let ghost k = key@;
                        let ghost p = payload@;
                        let mut payloads: Vec<Vec<u8>> = Vec::new();
                        payloads.push(payload);
                        groups.push(KeyedPayloads { key, payloads });
                        proof {
                            assert(!batch_keys(prefix).contains(k)) by {
                                if batch_keys(prefix).contains(k) {
                                    let j = choose|j: int| 0 <= j < batch_keys(prefix).len() && batch_keys(prefix)[j] == k;
                                    assert(before[j].key@ == k);
                                }
                            }
                            lemma_no_payloads_for_new_key(prefix, k);
                            assert forall|j: int| 0 <= j < groups@.len() implies (#[trigger] groups@[j]).key@
                                == batch_keys(next)[j] && byte_views(groups@[j].payloads@)
                                == payloads_for(next, groups@[j].key@) by {
                                if j == before.len() {
                                    assert(byte_views(groups@[j].payloads@) =~= seq![p]);
                                    assert(payloads_for(prefix, k) =~= Seq::<Seq<u8>>::empty());
                                } else {
                                    assert(groups@[j] == before[j]);
                                }
                            }
                        }
                    },
                }
            },
            _ => {
                proof {
                    assert forall|j: int| 0 <= j < groups@.len() implies (#[trigger] groups@[j]).key@
                        == batch_keys(next)[j] && byte_views(groups@[j].payloads@) == payloads_for(
                        next,
                        groups@[j].key@,
                    ) by {}
                }
            },
        }
    }
    proof {
        assert(all.take(all.len() as int) == all);
        law_grouping_keeps_every_message(all, groups@);
    }
    groups
}

/// The usable messages of `batch` published under `key`.
pub open spec fn has_key(key: Seq<u8>) -> spec_fn(RawMessage) -> bool {
    |m: RawMessage| usable(m) && m.0.unwrap()@ == key
}

/// The payload bytes of a message.
pub open spec fn payload_bytes(m: RawMessage) -> Seq<u8> {
    m.1.unwrap()@
}

/// The payloads under `key` are those of the batch's usable messages with that key, in
/// batch order.
proof fn lemma_payloads_are_filtered(batch: Seq<RawMessage>, key: Seq<u8>)
    ensures
        payloads_for(batch, key) == batch.filter(has_key(key)).map_values(|m: RawMessage| payload_bytes(m)),
    decreases batch.len(),
{
    broadcast use vstd::seq_lib::group_seq_properties;
    if batch.len() > 0 {
        let prefix = batch.drop_last();
        let m = batch.last();
        lemma_payloads_are_filtered(prefix, key);
        assert(prefix.push(m) =~= batch);
        prefix.lemma_filter_push(m, has_key(key));
        let f = prefix.filter(has_key(key));
        if has_key(key)(m) {
            assert(f.push(m).map_values(|x: RawMessage| payload_bytes(x)) =~= f.map_values(
                |x: RawMessage| payload_bytes(x),
            ).push(payload_bytes(m)));
        }
    } else {
        assert(batch.filter(has_key(key)) =~= batch) by {
            reveal(Seq::filter);
        }
    }
}

/// Every usable message's key is among the keys of its batch.
proof fn lemma_usable_keys_listed(batch: Seq<RawMessage>, j: int)
    requires
        0 <= j < batch.len(),
        usable(batch[j]),
    ensures
        batch_keys(batch).contains(batch[j].0.unwrap()@),
    decreases batch.len(),
{
    let prefix = batch.drop_last();
    if j < batch.len() - 1 {
        lemma_usable_keys_listed(prefix, j);
        assert(prefix[j] == batch[j]);
        let k = batch[j].0.unwrap()@;
        let t = choose|t: int| 0 <= t < batch_keys(prefix).len() && batch_keys(prefix)[t] == k;
        assert(batch_keys(batch)[t] == k);
    } else {
        let k = batch[j].0.unwrap()@;
        if batch_keys(prefix).contains(k) {
            let t = choose|t: int| 0 <= t < batch_keys(prefix).len() && batch_keys(prefix)[t] == k;
            assert(batch_keys(batch)[t] == k);
        } else {
            assert(batch_keys(batch).last() == k);
        }
    }
}

/// Grouping loses no message and mixes none: each group holds exactly the payloads of
/// the batch's messages with a key and a payload that were published under its key, in
/// batch order; every such message's key has a group; and no two groups share a key.
pub proof fn law_grouping_keeps_every_message(batch: Seq<RawMessage>, groups: Seq<KeyedPayloads>)
    requires
        grouped(batch, groups),
    ensures
        forall|i: int|
            0 <= i < groups.len() ==> byte_views((#[trigger] groups[i]).payloads@) == batch.filter(
                has_key(groups[i].key@),
            ).map_values(|m: RawMessage| payload_bytes(m)),
        forall|j: int|
            0 <= j < batch.len() && usable(#[trigger] batch[j]) ==> exists|i: int|
                0 <= i < groups.len() && (#[trigger] groups[i]).key@ == batch[j].0.unwrap()@,
        forall|i1: int, i2: int|
            0 <= i1 < groups.len() && 0 <= i2 < groups.len() && i1 != i2 ==> (#[trigger] groups[i1]).key@
                != (#[trigger] groups[i2]).key@,
{
    assert forall|i: int| 0 <= i < groups.len() implies byte_views((#[trigger] groups[i]).payloads@)
        == batch.filter(has_key(groups[i].key@)).map_values(|m: RawMessage| payload_bytes(m)) by {
        lemma_payloads_are_filtered(batch, groups[i].key@);
    }
    assert forall|j: int| 0 <= j < batch.len() && usable(#[trigger] batch[j]) implies exists|i: int|
        0 <= i < groups.len() && (#[trigger] groups[i]).key@ == batch[j].0.unwrap()@ by {
        lemma_usable_keys_listed(batch, j);
        let k = batch[j].0.unwrap()@;
        let t = choose|t: int| 0 <= t < batch_keys(batch).len() && batch_keys(batch)[t] == k;
        assert(groups[t].key@ == k);
    }
    lemma_batch_keys_distinct(batch);
    assert forall|i1: int, i2: int|
        0 <= i1 < groups.len() && 0 <= i2 < groups.len() && i1 != i2 implies (#[trigger] groups[i1]).key@
        != (#[trigger] groups[i2]).key@ by {
        assert(groups[i1].key@ == batch_keys(batch)[i1]);
        assert(groups[i2].key@ == batch_keys(batch)[i2]);
    }
}

/// The keys of a batch are distinct.
pub proof fn lemma_batch_keys_distinct(batch: Seq<RawMessage>)
    ensures
        batch_keys(batch).no_duplicates(),
    decreases batch.len(),
{
    if batch.len() > 0 {
        lemma_batch_keys_distinct(batch.drop_last());
    }
}

/// A key that does not occur among the keys of a batch has no payloads in it.
proof fn lemma_no_payloads_for_new_key(batch: Seq<RawMessage>, key: Seq<u8>)
    requires
        !batch_keys(batch).contains(key),
    ensures
        payloads_for(batch, key) == Seq::<Seq<u8>>::empty(),
    decreases batch.len(),
{
    if batch.len() > 0 {
        let prefix = batch.drop_last();
        let m = batch.last();
        if batch_keys(prefix).contains(key) {
            let j = choose|j: int| 0 <= j < batch_keys(prefix).len() && batch_keys(prefix)[j] == key;
            if usable(m) && !batch_keys(prefix).contains(m.0.unwrap()@) {
                assert(batch_keys(batch)[j] == key);
            }
        }
        lemma_no_payloads_for_new_key(prefix, key);
        if usable(m) && m.0.unwrap()@ == key {
            assert(batch_keys(batch).last() == key);
        }
    }
}

/// The time key of an event, as a pair.
pub open spec fn time_of(r: CacheRecord) -> (i64, i64) {
    r.time_key.pair()
}

/// `s` with `r` inserted after every event whose time key is at or before `r`'s.
pub open spec fn sorted_insert(s: Seq<CacheRecord>, r: CacheRecord) -> Seq<CacheRecord>
    decreases s.len(),
{
    if s.len() == 0 || key_le(time_of(s.last()), time_of(r)) {
        s.push(r)
    } else {
        sorted_insert(s.drop_last(), r).push(s.last())
    }
}

/// `rs` ordered by time key; events with equal time keys keep their order (a stable sort).
pub open spec fn sorted_by_time(rs: Seq<CacheRecord>) -> Seq<CacheRecord>
    decreases rs.len(),
{
    if rs.len() == 0 {
        rs
    } else {
        sorted_insert(sorted_by_time(rs.drop_last()), rs.last())
    }
}

/// The events of `s` are in time-key order.
pub open spec fn time_ordered(s: Seq<CacheRecord>) -> bool {
    forall|i: int, j: int| 0 <= i < j < s.len() ==> key_le(time_of(#[trigger] s[i]), time_of(#[trigger] s[j]))
}

fn time_at_most(a: &CacheRecord, b: &CacheRecord) -> (r: bool)
    ensures
        r == key_le(time_of(*a), time_of(*b)),
{
    a.time_key.0 < b.time_key.0 || (a.time_key.0 == b.time_key.0 && a.time_key.1 <= b.time_key.1)
}

fn insert_sorted(v: &mut Vec<CacheRecord>, r: CacheRecord)
    ensures
        final(v)@ == sorted_insert(old(v)@, r),
{
    let ghost s = v@;
    let mut j: usize = v.len();
    proof {
        assert(s.take(s.len() as int) == s);
        assert(s.skip(s.len() as int) =~= Seq::<CacheRecord>::empty());
        assert(sorted_insert(s, r) + Seq::<CacheRecord>::empty() =~= sorted_insert(s, r));
    }
    while j > 0 && !time_at_most(&v[j - 1], &r)
        invariant
            v@ == s,
            0 <= j <= s.len(),
            sorted_insert(s, r) == sorted_insert(s.take(j as int), r) + s.skip(j as int),
        decreases j,
    {
        proof {
            let t = s.take(j as int);
            assert(t.drop_last() == s.take(j - 1));
            assert(t.last() == s[j - 1]);
            assert(s.skip(j - 1) == seq![s[j - 1]] + s.skip(j as int));
            assert(sorted_insert(t, r) == sorted_insert(s.take(j - 1), r).push(s[j - 1]));
            assert(sorted_insert(s.take(j - 1), r).push(s[j - 1]) + s.skip(j as int)
                =~= sorted_insert(s.take(j - 1), r) + s.skip(j - 1));
        }
        j = j - 1;
    }
    proof {
        assert(sorted_insert(s.take(j as int), r) == s.take(j as int).push(r));
        assert(s == s.take(j as int) + s.skip(j as int));
    }
    v.insert(j, r);
    proof {
        assert(v@ =~= s.take(j as int).push(r) + s.skip(j as int));
    }
}

/// Orders the events of one key by time key; events with equal time keys keep their
/// order, so the latest of them comes last.
pub fn sort_by_time_key(records: Vec<CacheRecord>) -> (r: Vec<CacheRecord>)
    ensures
        r@ == sorted_by_time(records@),
{
    let ghost all = records@;
    let mut out: Vec<CacheRecord> = Vec::new();
    for rec in it: records
        invariant
            all == it.seq(),
            out@ == sorted_by_time(all.take(it.index())),
    {
        proof {
            assert(all.take(it.index() + 1).drop_last() == all.take(it.index()));
            assert(all.take(it.index() + 1).last() == rec);
        }
        insert_sorted(&mut out, rec);
    }
    proof {
        assert(all.take(all.len() as int) == all);
    }
    out
}

/// Inserting into an ordered list keeps it ordered and adds exactly the new event.
pub proof fn lemma_sorted_insert(s: Seq<CacheRecord>, r: CacheRecord)
    requires
        time_ordered(s),
    ensures
        time_ordered(sorted_insert(s, r)),
        sorted_insert(s, r).to_multiset() == s.to_multiset().insert(r),
        sorted_insert(s, r).len() == s.len() + 1,
        forall|i: int| 0 <= i < s.len() ==> key_le(time_of(#[trigger] s[i]), time_of(sorted_insert(s, r).last())),
    decreases s.len(),
{
    broadcast use vstd::seq_lib::group_to_multiset_ensures;
    if s.len() == 0 || key_le(time_of(s.last()), time_of(r)) {
        assert forall|i: int, j: int| 0 <= i < j < s.len() + 1 implies key_le(
            time_of(#[trigger] s.push(r)[i]),
            time_of(#[trigger] s.push(r)[j]),
        ) by {
            if j == s.len() {
                assert(key_le(time_of(s[i]), time_of(s.last())));
            }
        }
    } else {
        let p = s.drop_last();
        let l = s.last();
        assert(time_ordered(p));
        lemma_sorted_insert(p, r);
        let q = sorted_insert(p, r);
        assert(q.to_multiset().contains(r));
        assert forall|i: int, j: int| 0 <= i < j < q.len() + 1 implies key_le(
            time_of(#[trigger] q.push(l)[i]),
            time_of(#[trigger] q.push(l)[j]),
        ) by {
            if j == q.len() {
                // Every element of q is p's element or r; all are at or before l.
                assert(q.to_multiset().count(q[i]) > 0);
                if q[i] == r {
                } else {
                    assert(p.to_multiset().count(q[i]) > 0);
                    let k = choose|k: int| 0 <= k < p.len() && p[k] == q[i];
                    assert(s[k] == p[k]);
                }
            }
        }
        assert(s == p.push(l));
        assert forall|i: int| 0 <= i < s.len() implies key_le(time_of(#[trigger] s[i]), time_of(sorted_insert(s, r).last())) by {
            if i < s.len() - 1 {
                assert(s[i] == p[i]);
            }
        }
    }
}

/// Sorting by time key orders the events and neither loses nor adds any.
pub proof fn lemma_sorted_by_time(rs: Seq<CacheRecord>)
    ensures
        time_ordered(sorted_by_time(rs)),
        sorted_by_time(rs).to_multiset() == rs.to_multiset(),
    decreases rs.len(),
{
    broadcast use vstd::seq_lib::group_to_multiset_ensures;
    if rs.len() > 0 {
        lemma_sorted_by_time(rs.drop_last());
        lemma_sorted_insert(sorted_by_time(rs.drop_last()), rs.last());
        assert(rs == rs.drop_last().push(rs.last()));
    }
}


/// Most messages taken into one batch.
pub const MAX_BATCH_SIZE: usize = 100;

/// What waiting for the next message of a batch brought.
#[derive(Clone, Copy, Debug, PartialEq, Eq, Structural)]
pub enum ReceiveEvent {
    /// A message arrived.
    Message,
    /// The topic does not exist yet.
    TopicUnavailable,
    /// Any other consumer error.
    Error,
    /// The batch's waiting time ran out.
    TimedOut,
}

/// What the batch collector does next.
#[derive(Clone, Copy, Debug, PartialEq, Eq, Structural)]
pub enum CollectStep {
    /// Add the message to the batch and keep collecting.
    Push,
    /// Add the message to the batch, which is now full.
    PushAndStop,
    /// Stop collecting and process the batch as it is.
    Stop,
    /// Nothing to process: wait a second and collect anew.
    RetryLater,
    /// Give up with the consumer error.
    Fail,
}

/// The collector's step on `event` when the batch holds `len` messages. The first
/// message is awaited without limit: a missing topic there means retrying later. After
/// it, messages are taken until the batch is full or the waiting time runs out; a missing
/// topic then ends the batch, and any other error ends the worker.
pub fn collect_step(len: usize, event: ReceiveEvent) -> (r: CollectStep)
    ensures
        event == ReceiveEvent::Error ==> r == CollectStep::Fail,
        event == ReceiveEvent::Message && len + 1 < MAX_BATCH_SIZE ==> r == CollectStep::Push,
        event == ReceiveEvent::Message && len + 1 >= MAX_BATCH_SIZE ==> r == CollectStep::PushAndStop,
        event == ReceiveEvent::TopicUnavailable && len == 0 ==> r == CollectStep::RetryLater,
        event == ReceiveEvent::TopicUnavailable && len > 0 ==> r == CollectStep::Stop,
        event == ReceiveEvent::TimedOut ==> r == CollectStep::Stop,
{
    match event {
        ReceiveEvent::Message => if len < MAX_BATCH_SIZE - 1 {
            CollectStep::Push
        } else {
            CollectStep::PushAndStop
        },
        ReceiveEvent::TopicUnavailable => if len == 0 {
            CollectStep::RetryLater
        } else {
            CollectStep::Stop
        },
        ReceiveEvent::Error => CollectStep::Fail,
        ReceiveEvent::TimedOut => CollectStep::Stop,
    }
}


/// The removal marker of a batch of one player's events, the last of them by time key,
/// takes every event of the batch out of a front node's cache.
pub proof fn lemma_marker_clears_batch(m: Map<RecordKey, CacheRecord>, rs: Seq<CacheRecord>)
    requires
        rs.len() > 0,
        forall|i: int| 0 <= i < rs.len() ==> owner_part(record_key(#[trigger] rs[i])) == owner_part(record_key(rs[0])),
    ensures
        forall|i: int|
            0 <= i < rs.len() ==> !after_removal(m, sorted_by_time(rs).last()).dom().contains(
                record_key(#[trigger] rs[i]),
            ),
{
    broadcast use vstd::seq_lib::group_to_multiset_ensures;
    lemma_sorted_by_time(rs);
    let s = sorted_by_time(rs);
    assert(s.len() == rs.len()) by {
        assert(s.to_multiset().len() == rs.to_multiset().len());
    }
    let marker = s.last();
    assert(s.to_multiset().contains(marker)) by {
        assert(s[s.len() - 1] == marker);
    }
    let mi = choose|mi: int| 0 <= mi < rs.len() && rs[mi] == marker;
    assert forall|i: int| 0 <= i < rs.len() implies !after_removal(m, marker).dom().contains(
        record_key(#[trigger] rs[i]),
    ) by {
        assert(rs.to_multiset().contains(rs[i]));
        assert(s.to_multiset().contains(rs[i]));
        let j = choose|j: int| 0 <= j < s.len() && s[j] == rs[i];
        if j < s.len() - 1 {
            assert(key_le(time_of(s[j]), time_of(s[s.len() - 1])));
        }
        assert(owner_part(record_key(rs[mi])) == owner_part(record_key(rs[0])));
        assert(removed_by(marker, record_key(rs[i])));
    }
}

} // verus!
