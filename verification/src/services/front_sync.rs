//! Fetching the cached events of a season from the other front nodes.
use vstd::prelude::*;
use crate::domain::log::CacheRecord;

verus! {

/// How a front node answered a season copy request.
#[derive(Clone, Copy, Debug, PartialEq, Eq, Structural)]
pub enum CopyReply {
    /// `200 OK`: the body lists the node's cached events of the season.
    Records,
    /// `204 No Content`: the node caches nothing of the season.
    NoRecords,
    /// Any other status: the answer is ignored.
    Unexpected,
}

/// Classifies the HTTP status of a season copy answer.
pub fn classify_copy_status(status: u16) -> (r: CopyReply)
    ensures
        status == 200 ==> r == CopyReply::Records,
        status == 204 ==> r == CopyReply::NoRecords,
        status != 200 && status != 204 ==> r == CopyReply::Unexpected,
{
    if status == 200 {
        CopyReply::Records
    } else if status == 204 {
        CopyReply::NoRecords
    } else {
        CopyReply::Unexpected
    }
}

/// The address of the season copy endpoint of the front node at `url`.
pub fn stat_copy_url(url: &str) -> (r: String)
    ensures
        r@ == url@ + "/stat-copy"@,
{
    let mut address = String::from_str(url);
    address.append("/stat-copy");
    address
}

/// All events of the answers that carried any, in the order of the answers.
pub open spec fn flattened(replies: Seq<Option<Vec<CacheRecord>>>) -> Seq<CacheRecord>
    decreases replies.len(),
{
    if replies.len() == 0 {
        Seq::empty()
    } else {
        flattened(replies.drop_last()) + match replies.last() {
            Some(v) => v@,
            None => Seq::empty(),
        }
    }
}

/// Joins the events of the answers of all front nodes; nodes that did not answer with
/// events contribute nothing.
pub fn flatten_replies(replies: Vec<Option<Vec<CacheRecord>>>) -> (r: Vec<CacheRecord>)
    ensures
        r@ == flattened(replies@),
{
    let ghost all = replies@;
    let mut out: Vec<CacheRecord> = Vec::new();
    for reply in it: replies
        invariant
            all == it.seq(),
            out@ == flattened(all.take(it.index())),
    {
        proof {
            assert(all.take(it.index() + 1).drop_last() == all.take(it.index()));
            assert(all.take(it.index() + 1).last() == reply);
        }
        match reply {
            Some(mut records) => {
                out.append(&mut records);
            },
            None => {
                proof {
                    assert(out@ + Seq::<CacheRecord>::empty() =~= out@);
                }
            },
        }
    }
    proof {
        assert(all.take(all.len() as int) == all);
    }
    out
}

} // verus!
