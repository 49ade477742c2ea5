//! The modifier keys held with a key or a click.

use vstd::prelude::*;

verus! {

/// The modifiers held.
#[derive(Clone, Copy, Debug, PartialEq, Eq, Structural)]
pub struct Modifiers {
    pub shift: bool,
    /// Option.
    pub alt: bool,
    /// Command.
    pub platform: bool,
    pub control: bool,
    pub function: bool,
}

impl Modifiers {
    /// No modifier held.
    pub fn none() -> (m: Modifiers)
        ensures
            m == (Modifiers { shift: false, alt: false, platform: false, control: false, function: false }),
    {
        Modifiers { shift: false, alt: false, platform: false, control: false, function: false }
    }
}

} // verus!
