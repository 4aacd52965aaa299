use vstd::prelude::*;

verus! {

/// The bits of how a renderable is drawn.
pub const NONE: u32 = 0b0000;
pub const EXTEND_TEXTURE: u32 = 0b0001;
pub const FULLBRIGHT: u32 = 0b0010;
pub const SKIP: u32 = 0b0100;
pub const CUTOUT: u32 = 0b1000;

} // verus!
