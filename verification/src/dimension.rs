use vstd::prelude::*;

verus! {

/// The three dimensions a chunk column can belong to; they differ in their
/// vertical extent, and so in how many 16-block sections a column holds.
#[derive(Debug, PartialEq, Eq, Clone, Copy, Structural)]
pub enum Dimension {
    Overworld,
    Nether,
    End,
}

impl Dimension {
    /// How many chunk sections one column of this dimension holds.
    pub fn chunk_section_n(&self) -> (r: i32)
        ensures
            r == self.spec_chunk_section_n(),
    {
        match self {
            Self::Overworld => 24,
            _ => 16,
        }
    }

    pub open spec fn spec_chunk_section_n(&self) -> i32 {
        match self {
            Dimension::Overworld => 24,
            _ => 16,
        }
    }

    /// The lowest block height of this dimension.
    pub fn min_height(&self) -> (r: i32)
        ensures
            r == self.spec_min_height(),
    {
        match self {
            Self::Overworld => -64,
            _ => 0,
        }
    }

    pub open spec fn spec_min_height(&self) -> i32 {
        match self {
            Dimension::Overworld => -64i32,
            _ => 0,
        }
    }

    /// The highest block height of this dimension.
    pub fn max_height(&self) -> (r: i32)
        ensures
            r == self.spec_max_height(),
            self.spec_min_height() + 16 * self.spec_chunk_section_n() == r + 1,
    {
        match self {
            Self::Overworld => 319,
            _ => 255,
        }
    }

    pub open spec fn spec_max_height(&self) -> i32 {
        match self {
            Dimension::Overworld => 319,
            _ => 255,
        }
    }
}

} // verus!
