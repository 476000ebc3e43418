//! The cancellation registry: which request ids can still be cancelled.

use crate::cancel::{token_cancel, token_clone, token_new};
use std::collections::HashMap;
use tokio_util::sync::CancellationToken;
use vstd::prelude::*;

verus! {

broadcast use vstd::std_specs::hash::group_hash_axioms;

/// Map from the id of each scan in flight to its cancellation handle.
pub struct Registry {
    pub handles: HashMap<u64, CancellationToken>,
}

impl View for Registry {
    type V = Map<u64, CancellationToken>;

    open spec fn view(&self) -> Map<u64, CancellationToken> {
        self.handles@
    }
}

impl Registry {
    /// Whether a scan is registered under `id`.
    pub open spec fn is_live(&self, id: u64) -> bool {
        self@.contains_key(id)
    }

    /// A registry with no scan in flight.
    pub fn new() -> (r: Registry)
        ensures
            r@ == Map::<u64, CancellationToken>::empty(),
    {
        Registry { handles: HashMap::new() }
    }

    /// Whether a scan is registered under `id`.
    pub fn contains(&self, id: u64) -> (r: bool)
        ensures
            r == self.is_live(id),
    {
        self.handles.contains_key(&id)
    }

    /// Puts `handle` under `id`, in place of any handle that stood there.
    pub fn register(&mut self, id: u64, handle: CancellationToken)
        ensures
            final(self)@ == old(self)@.insert(id, handle),
    {
        let _ = self.handles.insert(id, handle);
    }

    /// Starts a scan under `id`: makes a fresh handle, registers it in place
    /// of any handle that stood there, and returns that same handle for the
    /// scan. Every other id keeps its handle.
    pub fn begin(&mut self, id: u64) -> (r: CancellationToken)
        ensures
            final(self)@ == old(self)@.insert(id, r),
            final(self).is_live(id),
            final(self)@.remove(id) == old(self)@.remove(id),
    {
        let token = token_new();
        let kept = token_clone(&token);
        self.register(id, kept);
        proof {
            assert(final(self)@.remove(id) =~= old(self)@.remove(id));
        }
        token
    }

    /// Signals the handle under `id`, if there is one, and says whether there
    /// was. The registry stays as it is; with no handle under `id` nothing is
    /// signalled.
    pub fn signal(&self, id: u64) -> (r: bool)
        ensures
            r == self.is_live(id),
    {
        match self.handles.get(&id) {
            Some(handle) => {
                token_cancel(handle);
                true
            },
            None => false,
        }
    }

    /// Removes the handle under `id`, whether or not there is one.
    pub fn deregister(&mut self, id: u64)
        ensures
            final(self)@ == old(self)@.remove(id),
            !final(self).is_live(id),
    {
        let _ = self.handles.remove(&id);
    }
}

/// A scan that has ended can no longer be cancelled: once `id` is
/// deregistered no handle stands under it, whatever was registered before,
/// and the other ids are as they were without that scan.
pub proof fn lemma_ended_scan_is_not_live(before: Map<u64, CancellationToken>, id: u64, handle:
    CancellationToken)
    ensures
        !before.insert(id, handle).remove(id).contains_key(id),
        before.insert(id, handle).remove(id) == before.remove(id),
{
    assert(before.insert(id, handle).remove(id) =~= before.remove(id));
}

} // verus!
