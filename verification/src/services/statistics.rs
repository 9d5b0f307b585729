//! Statistics requests: their normal form, and the totals they are answered with.
use vstd::prelude::*;
use std::sync::Arc;
use crate::domain::log::{CacheRecord, Log, Minutes};
use crate::domain::stat::{amount_of, StatAmount, StatPer, StatRequest, StatValue};
use crate::storage::runtime::{lists_season, record_key, records_of, RecordKey, RuntimeStore};
use crate::text::{is_blank_seq, normalize, normalized};

verus! {

/// The error type of the database driver, carried through unchanged.
#[verifier::external_type_specification]
#[verifier::external_body]
pub struct ExDatabaseError(sqlx::Error);

/// Why a statistics request could not be answered.
#[derive(Debug)]
pub enum StatisticsError {
    /// The request is malformed; the text says how.
    InvalidRequest(String),
    /// The database could not be read.
    Database(sqlx::Error),
}

/// The answer to a request without a season or without values.
pub open spec fn invalid_request_message() -> Seq<char> {
    "Request body is incorrect: provide season and values"@
}

/// `s` with every element after its first occurrence dropped; first occurrences keep
/// their order.
pub open spec fn dedup(s: Seq<StatValue>) -> Seq<StatValue>
    decreases s.len(),
{
    if s.len() == 0 {
        s
    } else {
        let prefix = dedup(s.drop_last());
        if prefix.contains(s.last()) {
            prefix
        } else {
            prefix.push(s.last())
        }
    }
}

/// Removing repeated values leaves no value twice and loses none.
pub proof fn lemma_dedup_distinct_same_values(s: Seq<StatValue>)
    ensures
        dedup(s).no_duplicates(),
        forall|v: StatValue| dedup(s).contains(v) <==> s.contains(v),
    decreases s.len(),
{
    if s.len() > 0 {
        lemma_dedup_distinct_same_values(s.drop_last());
        let prefix = dedup(s.drop_last());
        assert forall|v: StatValue| dedup(s).contains(v) <==> s.contains(v) by {
            if s.contains(v) && v != s.last() {
                let i = choose|i: int| 0 <= i < s.len() && s[i] == v;
                assert(s.drop_last()[i] == v);
            }
            if s.drop_last().contains(v) {
                let i = choose|i: int| 0 <= i < s.len() - 1 && s.drop_last()[i] == v;
                assert(s[i] == v);
            }
            if !prefix.contains(s.last()) {
                if prefix.push(s.last()).contains(v) && v != s.last() {
                    let i = choose|i: int| 0 <= i < prefix.len() + 1 && prefix.push(s.last())[i] == v;
                    assert(prefix[i] == v);
                }
                if prefix.contains(v) {
                    let i = choose|i: int| 0 <= i < prefix.len() && prefix[i] == v;
                    assert(prefix.push(s.last())[i] == v);
                }
                assert(prefix.push(s.last())[prefix.len() as int] == s.last());
            }
        }
    }
}

/// A list without repeated values is left as it is.
pub proof fn lemma_dedup_keeps_distinct(s: Seq<StatValue>)
    requires
        s.no_duplicates(),
    ensures
        dedup(s) == s,
    decreases s.len(),
{
    if s.len() > 0 {
        let p = s.drop_last();
        assert(p.no_duplicates());
        lemma_dedup_keeps_distinct(p);
        if p.contains(s.last()) {
            let i = choose|i: int| 0 <= i < p.len() && p[i] == s.last();
            assert(s[i] == s[s.len() - 1]);
        }
        assert(p.push(s.last()) == s);
    }
}

/// Removing repeated values twice is the same as once.
pub proof fn lemma_dedup_idempotent(s: Seq<StatValue>)
    ensures
        dedup(dedup(s)) == dedup(s),
{
    lemma_dedup_distinct_same_values(s);
    lemma_dedup_keeps_distinct(dedup(s));
}

fn contains_value(values: &Vec<StatValue>, v: StatValue) -> (r: bool)
    ensures
        r == values@.contains(v),
{
    let mut i: usize = 0;
    while i < values.len()
        invariant
            0 <= i <= values@.len(),
            forall|k: int| 0 <= k < i ==> values@[k] != v,
        decreases values@.len() - i,
    {
        if values[i] == v {
            return true;
        }
        i = i + 1;
    }
    false
}

/// `values` without repeats, first occurrences in their order.
pub fn dedup_values(values: &Vec<StatValue>) -> (r: Vec<StatValue>)
    ensures
        r@ == dedup(values@),
{
    let mut r: Vec<StatValue> = Vec::new();
    let mut i: usize = 0;
    while i < values.len()
        invariant
            0 <= i <= values@.len(),
            r@ == dedup(values@.take(i as int)),
        decreases values@.len() - i,
    {
        assert(values@.take(i + 1).drop_last() == values@.take(i as int));
        assert(values@.take(i + 1).last() == values@[i as int]);
        if !contains_value(&r, values[i]) {
            r.push(values[i]);
        }
        i = i + 1;
    }
    assert(values@.take(values@.len() as int) == values@);
    r
}

/// Checks a request whose season is already in normal form: a request with an empty season
/// or without values is refused and left as it is; otherwise repeated values are dropped,
/// first occurrences kept in order.
pub fn validate_normalized(request: &mut StatRequest) -> (r: Result<(), StatisticsError>)
    ensures
        final(request).season == old(request).season,
        final(request).per == old(request).per,
        r is Err <==> (old(request).season@.len() == 0 || old(request).values@.len() == 0),
        r matches Err(e) ==> (e matches StatisticsError::InvalidRequest(m)
            && m@ == invalid_request_message()),
        r is Err ==> final(request).values@ == old(request).values@,
        r is Ok ==> final(request).values@ == dedup(old(request).values@),
{
    if request.season.as_str().is_empty() || request.values.len() == 0 {
        return Err(
            StatisticsError::InvalidRequest(
                String::from_str("Request body is incorrect: provide season and values"),
            ),
        );
    }
    request.values = dedup_values(&request.values);
    Ok(())
}

/// Brings a request to normal form: the season trimmed and upper-cased, repeated values
/// dropped with the first occurrences kept in order. A request whose season is blank or
/// that asks for no value is refused.
pub fn normalize_and_validate(request: &mut StatRequest) -> (r: Result<(), StatisticsError>)
    ensures
        final(request).season@ == normalized(old(request).season@),
        final(request).per == old(request).per,
        r is Err <==> (is_blank_seq(old(request).season@) || old(request).values@.len() == 0),
        r matches Err(e) ==> (e matches StatisticsError::InvalidRequest(m)
            && m@ == invalid_request_message()),
        r is Err ==> final(request).values@ == old(request).values@,
        r is Ok ==> final(request).values@ == dedup(old(request).values@),
{
    request.season = normalize(request.season.as_str());
    validate_normalized(request)
}

/// The group an event falls in: its team or its player.
pub open spec fn group_of(r: CacheRecord, per: StatPer) -> Seq<char> {
    match per {
        StatPer::Team => r.log.team@,
        StatPer::Player => r.log.player@,
    }
}

/// The distinct groups of `view`, in the order they first appear.
pub open spec fn groups_of(view: Seq<CacheRecord>, per: StatPer) -> Seq<Seq<char>>
    decreases view.len(),
{
    if view.len() == 0 {
        Seq::empty()
    } else {
        let prefix = groups_of(view.drop_last(), per);
        let g = group_of(view.last(), per);
        if prefix.contains(g) {
            prefix
        } else {
            prefix.push(g)
        }
    }
}

/// How often `s` occurs in `values`.
pub open spec fn occurrences(values: Seq<StatValue>, s: StatValue) -> nat
    decreases values.len(),
{
    if values.len() == 0 {
        0
    } else {
        occurrences(values.drop_last(), s) + if values.last() == s {
            1nat
        } else {
            0nat
        }
    }
}

/// The whole-number amount of `s` in `log`; zero for the minutes played.
pub open spec fn count_amount(s: StatValue, log: Log) -> int {
    match amount_of(s, log) {
        StatAmount::Count(n) => n as int,
        StatAmount::Minutes(_) => 0,
    }
}

/// The minutes played of `log`; zero where it has none.
pub open spec fn minutes_amount(log: Log) -> Minutes {
    match log.minutes_played {
        Some(m) => m,
        None => Minutes { bits: 0 },
    }
}

/// The sum of statistic `s` over the events of `view` in group `g`.
pub open spec fn group_count(view: Seq<CacheRecord>, per: StatPer, g: Seq<char>, s: StatValue) -> int
    decreases view.len(),
{
    if view.len() == 0 {
        0
    } else {
        group_count(view.drop_last(), per, g, s) + if group_of(view.last(), per) == g {
            count_amount(s, view.last().log)
        } else {
            0
        }
    }
}

/// The minutes played of the events of `view` in group `g`, in the order of `view`.
pub open spec fn group_minutes(view: Seq<CacheRecord>, per: StatPer, g: Seq<char>) -> Seq<Minutes>
    decreases view.len(),
{
    if view.len() == 0 {
        Seq::empty()
    } else {
        let prefix = group_minutes(view.drop_last(), per, g);
        if group_of(view.last(), per) == g {
            prefix.push(minutes_amount(view.last().log))
        } else {
            prefix
        }
    }
}

/// One statistic of one group. Each occurrence of the statistic in the request adds the
/// group's events once more: the statistic's total is `occurrences` times `count` for a
/// counted statistic, and for the minutes played it is `0.0` plus, event by event in
/// order, `occurrences` times each entry of `minutes`.
pub struct StatTotal {
    pub stat: StatValue,
    pub occurrences: usize,
    pub count: i128,
    pub minutes: Vec<Minutes>,
}

/// The statistics of one group, one per distinct requested value, in request order.
pub struct GroupTotals {
    pub group: String,
    pub totals: Vec<StatTotal>,
}

/// `t` is the total of statistic `s` for group `g` of `view`.
pub open spec fn is_total(
    t: StatTotal,
    view: Seq<CacheRecord>,
    per: StatPer,
    g: Seq<char>,
    values: Seq<StatValue>,
    s: StatValue,
) -> bool {
    &&& t.stat == s
    &&& t.occurrences == occurrences(values, s)
    &&& t.count == group_count(view, per, g, s)
    &&& t.minutes@ == if s == StatValue::MinutesPlayed {
        group_minutes(view, per, g)
    } else {
        Seq::empty()
    }
}

/// `out` answers a request for `values` per `per` over the events `view`: one entry per
/// group in order of first appearance, each with the totals of the distinct values.
pub open spec fn aggregated(
    view: Seq<CacheRecord>,
    per: StatPer,
    values: Seq<StatValue>,
    out: Seq<GroupTotals>,
) -> bool {
    let groups = groups_of(view, per);
    let stats = dedup(values);
    &&& out.len() == groups.len()
    &&& forall|k: int|
        0 <= k < out.len() ==> {
            &&& (#[trigger] out[k]).group@ == groups[k]
            &&& out[k].totals@.len() == stats.len()
            &&& forall|j: int|
                0 <= j < stats.len() ==> is_total(
                    #[trigger] out[k].totals@[j],
                    view,
                    per,
                    groups[k],
                    values,
                    stats[j],
                )
        }
}

fn group_name(r: &CacheRecord, per: StatPer) -> (g: String)
    ensures
        g@ == group_of(*r, per),
{
    match per {
        StatPer::Team => r.log.team.clone(),
        StatPer::Player => r.log.player.clone(),
    }
}

fn contains_group(groups: &Vec<String>, g: &String) -> (r: bool)
    ensures
        r == crate::text::views(groups@).contains(g@),
{
    let mut i: usize = 0;
    while i < groups.len()
        invariant
            0 <= i <= groups@.len(),
            forall|k: int| 0 <= k < i ==> groups@[k]@ != g@,
        decreases groups@.len() - i,
    {
        if groups[i] == *g {
            assert(crate::text::views(groups@)[i as int] == g@);
            return true;
        }
        i = i + 1;
    }
    proof {
        if crate::text::views(groups@).contains(g@) {
            let k = choose|k: int| 0 <= k < groups@.len() && crate::text::views(groups@)[k] == g@;
            assert(groups@[k]@ == g@);
        }
    }
    false
}

/// The distinct groups of `view`, in order of first appearance.
fn distinct_groups(view: &Vec<Arc<CacheRecord>>, per: StatPer) -> (r: Vec<String>)
    ensures
        crate::text::views(r@) == groups_of(records_of(view@), per),
{
    let ghost rs = records_of(view@);
    let mut groups: Vec<String> = Vec::new();
    let mut p: usize = 0;
    while p < view.len()
        invariant
            0 <= p <= view@.len(),
            rs == records_of(view@),
            crate::text::views(groups@) == groups_of(rs.take(p as int), per),
        decreases view@.len() - p,
    {
        assert(rs.take(p + 1).drop_last() == rs.take(p as int));
        assert(rs.take(p + 1).last() == *view@[p as int]);
        let g = group_name(&view[p], per);
        if !contains_group(&groups, &g) {
            let ghost before = groups@;
            groups.push(g);
            assert(crate::text::views(groups@) == crate::text::views(before).push(g@));
        }
        p = p + 1;
    }
    assert(rs.take(view@.len() as int) == rs);
    groups
}

fn count_occurrences(values: &Vec<StatValue>, s: StatValue) -> (r: usize)
    ensures
        r == occurrences(values@, s),
{
    let mut n: usize = 0;
    let mut i: usize = 0;
    while i < values.len()
        invariant
            0 <= i <= values@.len(),
            n == occurrences(values@.take(i as int), s),
            n <= i,
        decreases values@.len() - i,
    {
        assert(values@.take(i + 1).drop_last() == values@.take(i as int));
        if values[i] == s {
            n = n + 1;
        }
        i = i + 1;
    }
    assert(values@.take(values@.len() as int) == values@);
    n
}

proof fn lemma_group_count_bound(view: Seq<CacheRecord>, per: StatPer, g: Seq<char>, s: StatValue)
    ensures
        -0x8000_0000 * view.len() <= group_count(view, per, g, s) <= 0x7FFF_FFFF * view.len(),
    decreases view.len(),
{
    if view.len() > 0 {
        lemma_group_count_bound(view.drop_last(), per, g, s);
    }
}

/// The total of statistic `s` for group `g` of `view`.
fn group_total(
    view: &Vec<Arc<CacheRecord>>,
    per: StatPer,
    g: &String,
    values: &Vec<StatValue>,
    s: StatValue,
) -> (t: StatTotal)
    ensures
        is_total(t, records_of(view@), per, g@, values@, s),
{
    let ghost rs = records_of(view@);
    let occurrences = count_occurrences(values, s);
    let mut count: i128 = 0;
    let mut minutes: Vec<Minutes> = Vec::new();
    let mut p: usize = 0;
    while p < view.len()
        invariant
            0 <= p <= view@.len(),
            rs == records_of(view@),
            count == group_count(rs.take(p as int), per, g@, s),
            minutes@ == if s == StatValue::MinutesPlayed {
                group_minutes(rs.take(p as int), per, g@)
            } else {
                Seq::empty()
            },
        decreases view@.len() - p,
    {
        let ghost prefix = rs.take(p + 1);
        assert(prefix.drop_last() == rs.take(p as int));
        assert(prefix.last() == *view@[p as int]);
        proof {
            lemma_group_count_bound(rs.take(p as int), per, g@, s);
        }
        let record = &view[p];
        let name = group_name(record, per);
        if name == *g {
            match s.value_from(&record.log) {
                StatAmount::Count(n) => {
                    count = count + n as i128;
                },
                StatAmount::Minutes(m) => {
                    minutes.push(m);
                },
            }
        }
        p = p + 1;
    }
    assert(rs.take(view@.len() as int) == rs);
    StatTotal { stat: s, occurrences, count, minutes }
}

/// Groups the events of `view` by team or player and totals the requested values for each
/// group. Groups come in order of first appearance; within a group there is one total per
/// distinct requested value, in request order.
pub fn aggregate(view: Vec<Arc<CacheRecord>>, request: &StatRequest) -> (r: Vec<GroupTotals>)
    ensures
        aggregated(records_of(view@), request.per, request.values@, r@),
{
    let ghost rs = records_of(view@);
    let stats = dedup_values(&request.values);
    let groups = distinct_groups(&view, request.per);
    let mut out: Vec<GroupTotals> = Vec::new();
    let mut k: usize = 0;
    while k < groups.len()
        invariant
            0 <= k <= groups@.len(),
            rs == records_of(view@),
            stats@ == dedup(request.values@),
            crate::text::views(groups@) == groups_of(rs, request.per),
            out@.len() == k,
            forall|k2: int|
                0 <= k2 < k ==> {
                    &&& (#[trigger] out@[k2]).group@ == groups_of(rs, request.per)[k2]
                    &&& out@[k2].totals@.len() == stats@.len()
                    &&& forall|j: int|
                        0 <= j < stats@.len() ==> is_total(
                            #[trigger] out@[k2].totals@[j],
                            rs,
                            request.per,
                            groups_of(rs, request.per)[k2],
                            request.values@,
                            stats@[j],
                        )
                },
        decreases groups@.len() - k,
    {
        let g = &groups[k];
        assert(g@ == groups_of(rs, request.per)[k as int]);
        let mut totals: Vec<StatTotal> = Vec::new();
        let mut j: usize = 0;
        while j < stats.len()
            invariant
                0 <= j <= stats@.len(),
                rs == records_of(view@),
                g@ == groups_of(rs, request.per)[k as int],
                totals@.len() == j,
                forall|j2: int|
                    0 <= j2 < j ==> is_total(
                        #[trigger] totals@[j2],
                        rs,
                        request.per,
                        g@,
                        request.values@,
                        stats@[j2],
                    ),
            decreases stats@.len() - j,
        {
            let t = group_total(&view, request.per, g, &request.values, stats[j]);
            totals.push(t);
            j = j + 1;
        }
        out.push(GroupTotals { group: g.clone(), totals });
        k = k + 1;
    }
    out
}


/// The cache `m` after `rs` have been logged into it, one after the other.
pub open spec fn inserted_all(m: Map<RecordKey, CacheRecord>, rs: Seq<CacheRecord>) -> Map<
    RecordKey,
    CacheRecord,
>
    decreases rs.len(),
{
    if rs.len() == 0 {
        m
    } else {
        inserted_all(m, rs.drop_last()).insert(record_key(rs.last()), rs.last())
    }
}

/// The events of season `s` in the cache `m`.
pub open spec fn season_events(m: Map<RecordKey, CacheRecord>, s: Seq<char>) -> Map<
    RecordKey,
    CacheRecord,
> {
    m.restrict(Set::new(|k: RecordKey| k.0 == s))
}

/// What a statistics answer is computed from: the stored events of the database, with the
/// cached events of the season taking the place of stored ones under the same key.
pub open spec fn combined_events(
    database: Seq<CacheRecord>,
    cache: Map<RecordKey, CacheRecord>,
    s: Seq<char>,
) -> Map<RecordKey, CacheRecord> {
    inserted_all(Map::empty(), database).union_prefer_right(season_events(cache, s))
}

/// Some event of `v` sits under key `k`.
spec fn lists_key(v: Seq<CacheRecord>, k: RecordKey) -> bool {
    exists|p: int| 0 <= p < v.len() && record_key(#[trigger] v[p]) == k
}

proof fn lemma_inserted_listing(
    base: Map<RecordKey, CacheRecord>,
    cache: Map<RecordKey, CacheRecord>,
    v: Seq<CacheRecord>,
)
    requires
        forall|p: int|
            0 <= p < v.len() ==> cache.dom().contains(record_key(#[trigger] v[p])) && cache[record_key(
                v[p],
            )] == v[p],
    ensures
        forall|k: RecordKey|
            #[trigger] inserted_all(base, v).dom().contains(k) <==> (base.dom().contains(k)
                || lists_key(v, k)),
        forall|k: RecordKey|
            #[trigger] inserted_all(base, v).dom().contains(k) ==> inserted_all(base, v)[k] == if lists_key(v, k) {
                cache[k]
            } else {
                base[k]
            },
    decreases v.len(),
{
    if v.len() > 0 {
        let w = v.drop_last();
        assert forall|p: int| 0 <= p < w.len() implies cache.dom().contains(record_key(#[trigger] w[p]))
            && cache[record_key(w[p])] == w[p] by {
            assert(w[p] == v[p]);
        }
        lemma_inserted_listing(base, cache, w);
        assert forall|k: RecordKey| #[trigger] lists_key(v, k) <==> lists_key(w, k) || record_key(v.last()) == k by {
            if lists_key(v, k) {
                let p = choose|p: int| 0 <= p < v.len() && record_key(#[trigger] v[p]) == k;
                if p < w.len() {
                    assert(w[p] == v[p]);
                }
            }
            if lists_key(w, k) {
                let p = choose|p: int| 0 <= p < w.len() && record_key(#[trigger] w[p]) == k;
                assert(w[p] == v[p]);
            }
            if record_key(v.last()) == k {
                assert(record_key(v[v.len() - 1]) == k);
            }
        }
        assert(cache[record_key(v[v.len() - 1])] == v[v.len() - 1]);
        let last = v.last();
        assert(inserted_all(base, v) == inserted_all(base, w).insert(record_key(last), last));
        assert forall|k: RecordKey| #[trigger] inserted_all(base, v).dom().contains(k) <==> (base.dom().contains(k)
            || lists_key(v, k)) by {
            assert(lists_key(v, k) <==> lists_key(w, k) || record_key(v.last()) == k);
        }
        assert forall|k: RecordKey| #[trigger] inserted_all(base, v).dom().contains(k) implies inserted_all(base, v)[k] == if lists_key(v, k) {
            cache[k]
        } else {
            base[k]
        } by {
            assert(lists_key(v, k) <==> lists_key(w, k) || record_key(v.last()) == k);
            if k != record_key(last) {
                assert(inserted_all(base, w).dom().contains(k));
            }
        }
    } else {
        assert forall|k: RecordKey| !lists_key(v, k) by {}
    }
}

/// Logging every event of a listing of season `s` adds the cached events of that season.
proof fn lemma_logging_listing(
    base: Map<RecordKey, CacheRecord>,
    cache: Map<RecordKey, CacheRecord>,
    s: Seq<char>,
    v: Seq<CacheRecord>,
)
    requires
        lists_season(cache, s, v),
    ensures
        inserted_all(base, v) == base.union_prefer_right(season_events(cache, s)),
{
    lemma_inserted_listing(base, cache, v);
    let left = inserted_all(base, v);
    let right = base.union_prefer_right(season_events(cache, s));
    assert forall|k: RecordKey| #[trigger] lists_key(v, k) <==> season_events(cache, s).dom().contains(k) by {
        if lists_key(v, k) {
            let p = choose|p: int| 0 <= p < v.len() && record_key(#[trigger] v[p]) == k;
        }
    }
    assert(left =~= right);
}

/// Logs `records` into `store`, one after the other.
fn log_all(store: &mut RuntimeStore, records: Vec<CacheRecord>)
    requires
        old(store).wf(),
    ensures
        final(store).wf(),
        final(store).events() == inserted_all(old(store).events(), records@),
{
    let ghost start = store.events();
    let ghost rs = records@;
    for r in it: records
        invariant
            rs == it.seq(),
            store.wf(),
            store.events() == inserted_all(start, rs.take(it.index())),
    {
        proof {
            assert(rs.take(it.index() + 1).drop_last() == rs.take(it.index()));
            assert(rs.take(it.index() + 1).last() == r);
        }
        store.log(r);
    }
    assert(rs.take(rs.len() as int) == rs);
}

/// Logs the shared events `records` into `store`, one after the other.
fn log_all_shared(store: &mut RuntimeStore, records: Vec<Arc<CacheRecord>>)
    requires
        old(store).wf(),
    ensures
        final(store).wf(),
        final(store).events() == inserted_all(old(store).events(), records_of(records@)),
{
    let ghost start = store.events();
    let ghost rs = records_of(records@);
    let ghost hs = records@;
    for r in it: records
        invariant
            hs == it.seq(),
            rs == records_of(hs),
            store.wf(),
            store.events() == inserted_all(start, rs.take(it.index())),
    {
        proof {
            assert(rs.take(it.index() + 1).drop_last() == rs.take(it.index()));
            assert(rs.take(it.index() + 1).last() == *r);
        }
        store.log_arc(r);
    }
    assert(rs.take(rs.len() as int) == rs);
}

/// Answers a normalized request once the stored events of its season have been read from
/// the database and the cached events of the other front nodes have been fetched: the
/// fetched events join the cache, and the totals are taken over the stored events of the
/// season with the cached ones in place of stored ones under the same key. The events are
/// taken in some order that lists each of them once.
pub fn answer(
    runtime_store: &mut RuntimeStore,
    request: &StatRequest,
    database_records: Vec<CacheRecord>,
    front_records: Vec<CacheRecord>,
) -> (r: Vec<GroupTotals>)
    requires
        old(runtime_store).wf(),
    ensures
        final(runtime_store).wf(),
        final(runtime_store).events() == inserted_all(
            old(runtime_store).events(),
            front_records@,
        ),
        exists|v: Seq<CacheRecord>|
            lists_season(
                combined_events(database_records@, final(runtime_store).events(), request.season@),
                request.season@,
                v,
            ) && aggregated(v, request.per, request.values@, r@),
{
    let ghost db = database_records@;
    log_all(runtime_store, front_records);
    let mut combined = RuntimeStore::new();
    log_all(&mut combined, database_records);
    let cached = runtime_store.view(request.season.as_str());
    proof {
        lemma_logging_listing(
            inserted_all(Map::empty(), db),
            runtime_store.events(),
            request.season@,
            records_of(cached@),
        );
    }
    log_all_shared(&mut combined, cached);
    let listing = combined.view(request.season.as_str());
    let ghost v = records_of(listing@);
    let r = aggregate(listing, request);
    assert(lists_season(
        combined_events(db, runtime_store.events(), request.season@),
        request.season@,
        v,
    ) && aggregated(v, request.per, request.values@, r@));
    r
}


/// A value that occurs once in a list without repeats is counted once: after a request is
/// normalized, every requested value adds each event exactly once.
pub proof fn lemma_normalized_values_counted_once(values: Seq<StatValue>, s: StatValue)
    requires
        dedup(values).contains(s),
    ensures
        occurrences(dedup(values), s) == 1,
{
    lemma_dedup_distinct_same_values(values);
    lemma_distinct_occurs_once(dedup(values), s);
}

proof fn lemma_distinct_occurs_once(values: Seq<StatValue>, s: StatValue)
    requires
        values.no_duplicates(),
        values.contains(s),
    ensures
        occurrences(values, s) == 1,
    decreases values.len(),
{
    let p = values.drop_last();
    assert(p.no_duplicates());
    if values.last() == s {
        if p.contains(s) {
            let i = choose|i: int| 0 <= i < p.len() && p[i] == s;
            assert(values[i] == values[values.len() - 1]);
        }
        lemma_absent_occurs_never(p, s);
    } else {
        let i = choose|i: int| 0 <= i < values.len() && values[i] == s;
        assert(p[i] == s);
        lemma_distinct_occurs_once(p, s);
    }
}

proof fn lemma_absent_occurs_never(values: Seq<StatValue>, s: StatValue)
    requires
        !values.contains(s),
    ensures
        occurrences(values, s) == 0,
    decreases values.len(),
{
    if values.len() > 0 {
        let p = values.drop_last();
        if p.contains(s) {
            let i = choose|i: int| 0 <= i < p.len() && p[i] == s;
            assert(values[i] == s);
        }
        assert(values[values.len() - 1] == values.last());
        lemma_absent_occurs_never(p, s);
    }
}

/// The groups of an answer are distinct, and they are exactly the groups of the events.
pub proof fn lemma_groups_distinct_complete(view: Seq<CacheRecord>, per: StatPer)
    ensures
        groups_of(view, per).no_duplicates(),
        forall|g: Seq<char>|
            groups_of(view, per).contains(g) <==> exists|i: int|
                0 <= i < view.len() && group_of(#[trigger] view[i], per) == g,
    decreases view.len(),
{
    if view.len() > 0 {
        let p = view.drop_last();
        lemma_groups_distinct_complete(p, per);
        let prefix = groups_of(p, per);
        let last = group_of(view.last(), per);
        assert forall|g: Seq<char>|
            groups_of(view, per).contains(g) <==> exists|i: int|
                0 <= i < view.len() && group_of(#[trigger] view[i], per) == g by {
            if groups_of(view, per).contains(g) {
                if prefix.contains(g) {
                    let i = choose|i: int| 0 <= i < p.len() && group_of(#[trigger] p[i], per) == g;
                    assert(view[i] == p[i]);
                } else {
                    assert(g == last);
                    assert(view[view.len() - 1] == view.last());
                }
            }
            if exists|i: int| 0 <= i < view.len() && group_of(#[trigger] view[i], per) == g {
                let i = choose|i: int| 0 <= i < view.len() && group_of(#[trigger] view[i], per) == g;
                if i < view.len() - 1 {
                    assert(p[i] == view[i]);
                    assert(prefix.contains(g));
                    if !prefix.contains(last) {
                        let j = choose|j: int| 0 <= j < prefix.len() && prefix[j] == g;
                        assert(prefix.push(last)[j] == g);
                    }
                } else {
                    if !prefix.contains(last) {
                        assert(prefix.push(last)[prefix.len() as int] == g);
                    }
                }
            }
        }
    }
}

/// Totals of a concatenation are the sums of the totals of its parts.
pub proof fn lemma_group_count_append(
    a: Seq<CacheRecord>,
    b: Seq<CacheRecord>,
    per: StatPer,
    g: Seq<char>,
    s: StatValue,
)
    ensures
        group_count(a + b, per, g, s) == group_count(a, per, g, s) + group_count(b, per, g, s),
        group_minutes(a + b, per, g) == group_minutes(a, per, g) + group_minutes(b, per, g),
    decreases b.len(),
{
    if b.len() == 0 {
        assert(a + b == a);
        assert(group_minutes(a, per, g) + Seq::<Minutes>::empty() == group_minutes(a, per, g));
    } else {
        lemma_group_count_append(a, b.drop_last(), per, g, s);
        assert((a + b).drop_last() == a + b.drop_last());
        assert((a + b).last() == b.last());
        assert(group_minutes(a, per, g) + group_minutes(b.drop_last(), per, g).push(
            minutes_amount(b.last().log),
        ) == (group_minutes(a, per, g) + group_minutes(b.drop_last(), per, g)).push(
            minutes_amount(b.last().log),
        ));
    }
}

/// The totals do not depend on the order in which the events are listed: two listings of
/// the same events give each group the same counts, and the same minutes in some order.
pub proof fn lemma_totals_order_independent(
    a: Seq<CacheRecord>,
    b: Seq<CacheRecord>,
    per: StatPer,
    g: Seq<char>,
    s: StatValue,
)
    requires
        a.to_multiset() == b.to_multiset(),
    ensures
        group_count(a, per, g, s) == group_count(b, per, g, s),
        group_minutes(a, per, g).to_multiset() == group_minutes(b, per, g).to_multiset(),
    decreases a.len(),
{
    broadcast use vstd::seq_lib::group_to_multiset_ensures;
    if a.len() == 0 {
        assert(b.to_multiset().len() == 0);
        assert(b.len() == 0);
    } else {
        let x = a.last();
        let a2 = a.drop_last();
        assert(a == a2.push(x));
        assert(b.to_multiset().contains(x));
        let i = choose|i: int| 0 <= i < b.len() && b[i] == x;
        let b1 = b.take(i);
        let b3 = b.skip(i + 1);
        let b2 = b1 + b3;
        assert(b == b1 + seq![x] + b3);
        assert(b.remove(i) == b2);
        assert(b2.to_multiset() == b.to_multiset().remove(x));
        assert(a2.to_multiset() == a.to_multiset().remove(x));
        lemma_totals_order_independent(a2, b2, per, g, s);
        lemma_group_count_append(b1 + seq![x], b3, per, g, s);
        lemma_group_count_append(b1, seq![x], per, g, s);
        lemma_group_count_append(b1, b3, per, g, s);
        assert(seq![x].drop_last() =~= Seq::<CacheRecord>::empty());
        assert(seq![x].last() == x);
        assert(group_minutes(b, per, g) == group_minutes(b1, per, g) + group_minutes(seq![x], per, g)
            + group_minutes(b3, per, g));
        assert(group_minutes(b2, per, g) == group_minutes(b1, per, g) + group_minutes(b3, per, g));
        assert(a =~= a2 + seq![x]);
        lemma_group_count_append(a2, seq![x], per, g, s);
        assert(b =~= (b1 + seq![x]) + b3);
        assert(group_minutes(a, per, g) == group_minutes(a2, per, g) + group_minutes(seq![x], per, g));
        vstd::seq_lib::lemma_multiset_commutative(group_minutes(b1, per, g), group_minutes(seq![x], per, g));
        vstd::seq_lib::lemma_multiset_commutative(group_minutes(b1, per, g) + group_minutes(seq![x], per, g), group_minutes(b3, per, g));
        vstd::seq_lib::lemma_multiset_commutative(group_minutes(b1, per, g), group_minutes(b3, per, g));
        vstd::seq_lib::lemma_multiset_commutative(group_minutes(a2, per, g), group_minutes(seq![x], per, g));
        vstd::seq_lib::lemma_multiset_commutative(group_minutes(b2, per, g), group_minutes(seq![x], per, g));
        lemma_group_count_append(b2, seq![x], per, g, s);
    }
}

} // verus!
