//! The internal endpoint through which front nodes exchange their cached events.
use vstd::prelude::*;
use std::sync::Arc;
use crate::domain::log::CacheRecord;
use crate::storage::runtime::{lists_season, records_of, RecordKey, RuntimeStore};
use crate::text::{to_uppercase, uppercase};

verus! {

/// The cached events of a season, the season name upper-cased (not trimmed); `None`
/// (answered `204 No Content`) when the cache holds none of them.
pub fn copy(store: &RuntimeStore, season: &str) -> (r: Option<Vec<Arc<CacheRecord>>>)
    requires
        store.wf(),
    ensures
        r is None <==> !exists|k: RecordKey| #[trigger] store.events().dom().contains(k) && k.0
            == uppercase(season@),
        r matches Some(v) ==> lists_season(store.events(), uppercase(season@), records_of(v@)),
{
    let upper = to_uppercase(season);
    let records = store.view(upper.as_str());
    if records.len() == 0 {
        proof {
            assert forall|k: RecordKey| #[trigger] store.events().dom().contains(k) implies k.0
                != uppercase(season@) by {
                if k.0 == upper@ {
                    let p = choose|p: int|
                        0 <= p < records_of(records@).len() && crate::storage::runtime::record_key(
                            #[trigger] records_of(records@)[p],
                        ) == k;
                }
            }
        }
        None
    } else {
        proof {
            let k = crate::storage::runtime::record_key(records_of(records@)[0]);
            assert(store.events().dom().contains(k));
        }
        Some(records)
    }
}

} // verus!
