//! The anchor role of one round. Leader selection itself is a
//! deterministic function of round and committee computed by the external
//! peer schedule; this crate takes the chosen leader as an input.

use vstd::prelude::*;

use crate::models::{PeerId, Round};

verus! {

/// Length of one anchor wave: rounds cycle through (inclusion, proof,
/// trigger, inclusion) roles.
pub const WAVE_SIZE: u32 = 4;

/// At most one committee member per round is designated leader for a
/// "Proof" role, and one round later the matching "Trigger" role commits
/// the chain.
#[derive(Clone, Copy, Debug)]
pub enum AnchorStage {
    Proof { leader: PeerId },
    Trigger { leader: PeerId },
}

/// The anchor role of `round` when `leader` is its designated leader:
/// the second round of each wave carries the proof role, the third the
/// trigger role, and the rest carry none.
pub open spec fn spec_anchor_stage_of(round: u32, leader: PeerId) -> Option<AnchorStage> {
    if round % WAVE_SIZE == 1 {
        Some(AnchorStage::Proof { leader })
    } else if round % WAVE_SIZE == 2 {
        Some(AnchorStage::Trigger { leader })
    } else {
        None
    }
}

impl AnchorStage {
    /// The designated leader of this stage.
    pub open spec fn spec_leader(self) -> PeerId {
        match self {
            AnchorStage::Proof { leader } => leader,
            AnchorStage::Trigger { leader } => leader,
        }
    }

    /// Computes the anchor role of `round` from the externally chosen
    /// `leader`.
    pub fn of(round: Round, leader: PeerId) -> (r: Option<AnchorStage>)
        ensures
            r == spec_anchor_stage_of(round.0, leader),
    {
        if round.0 % WAVE_SIZE == 1 {
            Some(AnchorStage::Proof { leader })
        } else if round.0 % WAVE_SIZE == 2 {
            Some(AnchorStage::Trigger { leader })
        } else {
            None
        }
    }
}

} // verus!
