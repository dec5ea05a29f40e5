//! The result a block-validation task hands back through its dispatcher.

use vstd::prelude::*;

verus! {

/// What a finished validation task yields.
#[derive(Debug, Clone, Copy, PartialEq, Eq, Structural)]
pub enum ValidatorTaskResult {
    Void,
}

} // verus!
