//! Metadata the scheduler keeps about a stored bundle.

use vstd::prelude::*;

verus! {

/// The scheduler's view of one stored bundle: its identifier, when it was
/// created, and whether it still waits to be forwarded. The payload stays in
/// the store.
#[derive(Debug)]
pub struct BundlePack {
    /// Identifier of the bundle, unique and stable while it is stored.
    pub id: String,
    /// Creation timestamp; older bundles carry smaller values.
    pub creation_time: u64,
    /// Set while the bundle is waiting to be forwarded.
    pub forward_pending: bool,
}

impl BundlePack {
    /// Metadata for a freshly accepted bundle, which is pending forward.
    pub fn new(id: String, creation_time: u64) -> (pack: BundlePack)
        ensures
            pack == (BundlePack { id, creation_time, forward_pending: true }),
    {
        BundlePack { id, creation_time, forward_pending: true }
    }

    /// The bundle's identifier.
    pub fn id(&self) -> (id: &String)
        ensures
            *id == self.id,
    {
        &self.id
    }
}

impl Clone for BundlePack {
    fn clone(&self) -> (copy: Self)
        ensures
            copy == *self,
    {
        BundlePack {
            id: self.id.clone(),
            creation_time: self.creation_time,
            forward_pending: self.forward_pending,
        }
    }
}

} // verus!
