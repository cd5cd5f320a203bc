//! A per-user counter, unrelated to the staking pool but shipped with it: a
//! record holding one number that starts at zero and can be stepped up.

use vstd::prelude::*;

verus! {

/// The counter record.
#[derive(Clone, Copy, Debug, PartialEq, Eq, Structural)]
pub struct Counter {
    pub data: u32,
}

/// A fresh counter starts at zero.
pub fn create() -> (c: Counter)
    ensures
        c.data == 0,
{
    Counter { data: 0 }
}

/// Step the counter up by one. The caller must keep the counter below the
/// ceiling of its type; the host refuses the call at the ceiling.
pub fn increase(counter: &mut Counter)
    requires
        old(counter).data < u32::MAX,
    ensures
        final(counter).data == old(counter).data + 1,
{
    counter.data = counter.data + 1;
}

} // verus!
