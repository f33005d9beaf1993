//! The handle by which the threads of the player share the latest snapshot of
//! the collection.

use crate::track::{MusicCollection, Orchestra};
use arc_swap::ArcSwap;
use std::sync::Arc;
use vstd::prelude::*;

verus! {

/// A shared storage of the latest [`Orchestra`], an `arc_swap::ArcSwap` behind
/// an `Arc`.
///
/// The storage is opaque: its type has parameters that `arc_swap` keeps
/// private, and what it holds can change at any time at the hands of another
/// thread.
#[verifier::external_body]
pub struct SharedOrchestra {
    inner: Arc<ArcSwap<Orchestra>>,
}

/// Every snapshot that the storage holds at one time or another.
pub uninterp spec fn snapshots(shared: SharedOrchestra) -> Set<Orchestra>;

/// The collection is one that the storage holds at one time or another.
pub open spec fn is_snapshot_of(collection: MusicCollection, shared: SharedOrchestra) -> bool {
    snapshots(shared).contains(Orchestra { collection })
}

impl SharedOrchestra {
    /// `ArcSwap::from_pointee`: a new storage that holds `orchestra`. Whether a
    /// later reading still finds it there is not claimed.
    #[verifier::external_body]
    pub(crate) fn new(orchestra: Orchestra) -> (shared: SharedOrchestra)
        ensures
            snapshots(shared).contains(orchestra),
    {
        SharedOrchestra { inner: Arc::new(ArcSwap::from_pointee(orchestra)) }
    }

    /// `ArcSwap::load`: a snapshot that this storage holds. Which one of them it
    /// is depends on what other threads have stored, so that is not claimed.
    #[verifier::external_body]
    pub(crate) fn load(&self) -> (orchestra: Arc<Orchestra>)
        ensures
            snapshots(*self).contains(*orchestra),
    {
        Arc::clone(&self.inner.load())
    }

    /// `Arc::clone` on the handle: another handle on the same storage.
    #[verifier::external_body]
    pub(crate) fn share(&self) -> (shared: SharedOrchestra)
        ensures
            shared == *self,
    {
        SharedOrchestra { inner: Arc::clone(&self.inner) }
    }
}

} // verus!
