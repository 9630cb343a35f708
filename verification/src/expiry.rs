//! Removal of expired entries.

use vstd::prelude::*;
use crate::store::system_time_or_epoch;
use crate::store::live_part;
use crate::store::Store;

verus! {

/// Removes the entries that are expired now, by the system clock.
pub fn purge_expired(store: &mut Store)
    requires
        old(store).wf(),
    ensures
        final(store).wf(),
        exists|now: u128| final(store)@ == live_part(old(store)@, now),
{
    let now = system_time_or_epoch();
    store.remove_expired(now);
}

} // verus!
