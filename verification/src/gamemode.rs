use vstd::prelude::*;

verus! {

/// The four game modes, in their wire order.
#[derive(Debug, PartialEq, Eq, Clone, Copy, Structural)]
pub enum Gamemode {
    Survival,
    Creative,
    Adventure,
    Spectator,
}

impl Gamemode {
    /// The one-byte wire value of this mode.
    pub open spec fn spec_byte(self) -> u8 {
        match self {
            Gamemode::Survival => 0,
            Gamemode::Creative => 1,
            Gamemode::Adventure => 2,
            Gamemode::Spectator => 3,
        }
    }

    pub fn byte(self) -> (r: u8)
        ensures
            r == self.spec_byte(),
    {
        match self {
            Gamemode::Survival => 0,
            Gamemode::Creative => 1,
            Gamemode::Adventure => 2,
            Gamemode::Spectator => 3,
        }
    }
}

} // verus!
