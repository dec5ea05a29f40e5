//! Events a private overlay's entry container reports to its subscribers.

use vstd::prelude::*;

use crate::models::PeerId;

verus! {

/// What happened to one entry of the overlay's peer container.
#[derive(Debug, Clone, Copy)]
pub enum PrivateOverlayEntriesEvent {
    /// A new entry was inserted.
    Added(PeerId),
    /// An existing entry was resolved to a known peer.
    Resolved(PeerId),
    /// An existing entry was removed.
    Removed(PeerId),
}

} // verus!
