use vstd::prelude::*;

use crate::reader::{be_bytes, write_be};

verus! {

/// A block position, packed on the wire into one 64-bit word:
/// 26 bits of x, 26 bits of z, 12 bits of y.
#[derive(Debug, PartialEq, Eq, Clone, Copy, Structural)]
pub struct Position {
    pub x: i32,
    pub y: i16,
    pub z: i32,
}

/// The packed 64-bit word of a position: `x` in bits 38..63, `z` in bits
/// 12..37, `y` in bits 0..11, each truncated to its field width.
pub open spec fn position_word(p: Position) -> u64 {
    ((((p.x as u32) as u64) & 0x3FFFFFF) << 38) | ((((p.z as u32) as u64) & 0x3FFFFFF) << 12) | (
    ((p.y as u16) as u64) & 0xFFF)
}

impl Position {
    /// The eight big-endian bytes of the packed position word.
    pub fn to_bytes(self) -> (r: Vec<u8>)
        ensures
            r@ == be_bytes(position_word(self) as nat, 8),
    {
        let w: u64 = ((((self.x as u32) as u64) & 0x3FFFFFF) << 38u64) | ((((self.z as u32) as u64)
            & 0x3FFFFFF) << 12u64) | (((self.y as u16) as u64) & 0xFFF);
        let mut r: Vec<u8> = Vec::new();
        write_be(&mut r, w as u128, 8);
        proof {
            assert(w == position_word(self));
            assert(r@ =~= be_bytes(position_word(self) as nat, 8));
        }
        r
    }
}

} // verus!
