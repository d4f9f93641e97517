//! Small glyphs, each with a name for its tooltip. The glyphs themselves are
//! drawn by the interface.
use vstd::prelude::*;

verus! {

#[derive(Clone, Copy, Debug, PartialEq, Eq, Structural)]
pub enum Icon {
    Alloys,
    Electronics,
    Secure,
    Decay,
}

impl Icon {
    /// What the icon stands for, as its tooltip says.
    pub fn name(self) -> (name: &'static str)
        ensures
            name@ == (match self {
                Icon::Alloys => "Alloys"@,
                Icon::Electronics => "Advanced Electronics"@,
                Icon::Secure => "Turns to secure"@,
                Icon::Decay => "Influence lost per turn without a ship"@,
            }),
    {
        match self {
            Icon::Alloys => "Alloys",
            Icon::Electronics => "Advanced Electronics",
            Icon::Secure => "Turns to secure",
            Icon::Decay => "Influence lost per turn without a ship",
        }
    }
}

} // verus!
