//! Small classification types of the block-handle store around the node.

use vstd::prelude::*;

verus! {

/// Whether a block handle lookup created the handle or found it.
#[derive(Debug, Clone, Copy, PartialEq, Eq, Structural)]
pub enum HandleCreationStatus {
    Created,
    Fetched,
}

/// Which way a key-block iteration walks.
#[derive(Debug, Clone, Copy, PartialEq, Eq, Structural)]
pub enum KeyBlocksDirection {
    ForwardFrom(u32),
    Backward,
}

} // verus!
