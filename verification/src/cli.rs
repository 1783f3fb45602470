//! Command-line facing names for the animation kinds.

use vstd::prelude::*;
use crate::animate::Animation;

verus! {

/// The animation kinds as the command surface names them.
#[derive(Clone, Copy, PartialEq, Eq, Structural, Debug)]
pub enum CliAnimation {
    Still,
    PulseWhole,
    PulseParts,
    TwirlWhole,
    TwirlParts,
}

/// The library animation kind a command-line kind selects.
pub open spec fn spec_to_lib(c: CliAnimation) -> Animation {
    match c {
        CliAnimation::Still => Animation::Still,
        CliAnimation::PulseWhole => Animation::PulseWhole,
        CliAnimation::PulseParts => Animation::PulseParts,
        CliAnimation::TwirlWhole => Animation::TwirlWhole,
        CliAnimation::TwirlParts => Animation::TwirlParts,
    }
}

impl CliAnimation {
    /// Map the command-line kind to the library kind.
    pub fn to_lib(&self) -> (r: Animation) 
        ensures
            r == spec_to_lib(*self),
    {
        match self {
            CliAnimation::Still => Animation::Still,
            CliAnimation::PulseWhole => Animation::PulseWhole,
            CliAnimation::PulseParts => Animation::PulseParts,
            CliAnimation::TwirlWhole => Animation::TwirlWhole,
            CliAnimation::TwirlParts => Animation::TwirlParts,
        }
    }
}

} // verus!
