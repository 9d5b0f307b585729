//! Front-node discovery: keeping the list of the other active front nodes.
use vstd::prelude::*;
use crate::text::views;

verus! {

/// Whether the freshly read list of active front nodes differs from the current one.
pub fn lists_different(state: &Vec<String>, current: &Vec<String>) -> (r: bool)
    ensures
        r == (views(state@) != views(current@)),
{
    if state.len() != current.len() {
        proof {
            assert(views(state@).len() != views(current@).len());
        }
        return true;
    }
    let mut i: usize = 0;
    while i < state.len()
        invariant
            state@.len() == current@.len(),
            0 <= i <= state@.len(),
            forall|k: int| 0 <= k < i ==> state@[k]@ == current@[k]@,
        decreases state@.len() - i,
    {
        if state[i] != current[i] {
            proof {
                assert(views(state@)[i as int] != views(current@)[i as int]);
            }
            return true;
        }
        i = i + 1;
    }
    assert(views(state@) =~= views(current@));
    false
}

/// Replaces the current list of front nodes with the freshly read one when they differ.
pub fn work_on_state(state: Vec<String>, current: &mut Vec<String>)
    ensures
        views(final(current)@) == views(state@),
{
    if lists_different(&state, current) {
        *current = state;
    }
}

} // verus!
