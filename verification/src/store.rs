//! The interface the scheduler needs from durable bundle storage.

use crate::bundlepack::BundlePack;
use vstd::prelude::*;

verus! {

/// What the node asks of its bundle store.
///
/// A store may sit on disk or behind a lock and change between two calls, so
/// none of these methods promises anything about what it returns. Functions
/// that call them describe their own results in terms of whatever the store
/// answered.
pub trait BundleStore {
    /// Identifiers of the bundles that currently wait to be forwarded.
    fn forwarding(&self) -> Vec<String>;

    /// Metadata of the bundle with this identifier, if the store holds it.
    fn get_metadata(&self, id: &String) -> Option<BundlePack>;

    /// Number of bundles in the store.
    fn count(&self) -> u64;

    /// Identifiers of all bundles in the store.
    fn all_ids(&self) -> Vec<String>;
}

} // verus!
