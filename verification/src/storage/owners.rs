//! The concurrent map of `dashmap` that holds one timeline per season, team and player.
use vstd::prelude::*;
use dashmap::DashMap;
use crate::domain::log::CacheRecord;
use crate::storage::skiplist::{timeline_entries, Timeline};

verus! {

/// `dashmap::DashMap`, a concurrent hash map; its contents are `owner_timelines`.
#[verifier::external_type_specification]
#[verifier::external_body]
#[verifier::reject_recursive_types(K)]
#[verifier::reject_recursive_types(V)]
#[verifier::reject_recursive_types(S)]
pub struct ExDashMap<K, V, S>(DashMap<K, V, S>);

/// Who a timeline belongs to: season, team and player.
pub type Owner = (String, String, String);

/// The text of an owner.
pub type OwnerKey = (Seq<char>, Seq<char>, Seq<char>);

/// The text of an owner.
pub open spec fn owner_of(o: Owner) -> OwnerKey {
    (o.0@, o.1@, o.2@)
}

/// The timelines of the cache, one per owner.
pub type Owners = DashMap<Owner, Timeline>;

/// What the owners map holds: for each owner, the entries of its timeline.
pub uninterp spec fn owner_timelines(m: Owners) -> Map<OwnerKey, Map<(i64, i64), CacheRecord>>;

/// `DashMap::new`: the new map holds nothing.
#[verifier::external_body]
pub(crate) fn owners_new() -> (r: Owners)
    ensures
        owner_timelines(r).dom().is_empty(),
{
    DashMap::new()
}

/// `DashMap::remove`, reduced to the value: the owner's timeline leaves the map and is
/// handed back, or `None` when the owner has none.
#[verifier::external_body]
pub(crate) fn owners_take(m: &mut Owners, owner: &Owner) -> (r: Option<Timeline>)
    ensures
        owner_timelines(*final(m)) == owner_timelines(*old(m)).remove(owner_of(*owner)),
        r is Some <==> owner_timelines(*old(m)).dom().contains(owner_of(*owner)),
        r matches Some(t) ==> timeline_entries(t) == owner_timelines(*old(m))[owner_of(*owner)],
{
    m.remove(owner).map(|(_, timeline)| timeline)
}

/// `DashMap::insert`: afterwards the owner's timeline is `timeline`; any earlier one is
/// replaced, all other owners stay.
#[verifier::external_body]
pub(crate) fn owners_put(m: &mut Owners, owner: Owner, timeline: Timeline)
    ensures
        owner_timelines(*final(m)) == owner_timelines(*old(m)).insert(
            owner_of(owner),
            timeline_entries(timeline),
        ),
{
    m.insert(owner, timeline);
}

/// `DashMap::iter`, reduced to the keys: every owner exactly once, in no particular order.
#[verifier::external_body]
pub(crate) fn owners_keys(m: &Owners) -> (r: Vec<Owner>)
    ensures
        r@.map_values(|o: Owner| owner_of(o)).no_duplicates(),
        r@.map_values(|o: Owner| owner_of(o)).to_set() == owner_timelines(*m).dom(),
{
    m.iter().map(|entry| entry.key().clone()).collect()
}

/// `DashMap::view`: applies `f` to the owner's timeline, or gives `None` when the owner
/// has no timeline. `f` sees a timeline whose entries are the owner's.
#[verifier::external_body]
pub(crate) fn owners_view<R, F: FnOnce(&Timeline) -> R>(m: &Owners, owner: &Owner, f: F) -> (r: Option<R>)
    requires
        forall|t: &Timeline| f.requires((t,)),
    ensures
        r is Some <==> owner_timelines(*m).dom().contains(owner_of(*owner)),
        r matches Some(v) ==> exists|t: &Timeline|
            timeline_entries(*t) == owner_timelines(*m)[owner_of(*owner)] && f.ensures((t,), v),
{
    m.view(owner, |_, timeline| f(timeline))
}

} // verus!
