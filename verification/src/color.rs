//! Colors and the bytes that a pixel of a color occupies.
use vstd::prelude::*;

verus! {

/// RGB color used by the drawing helpers.
#[derive(Clone, Copy, Debug, PartialEq, Eq, Structural)]
pub struct Color {
    /// Red component.
    pub r: u8,
    /// Green component.
    pub g: u8,
    /// Blue component.
    pub b: u8,
}

/// The byte that a pixel write stores at offset `k` (0..4) of a BGRA pixel.
pub open spec fn channel(c: Color, k: int) -> u8 {
    if k == 0 {
        c.b
    } else if k == 1 {
        c.g
    } else if k == 2 {
        c.r
    } else {
        0xffu8
    }
}

impl Color {
    /// Packs the color as a little-endian BGRA word with an opaque alpha channel.
    pub fn bgra(self) -> (word: u32)
        ensures
            word as int == self.b as int + 256 * (self.g as int) + 65536 * (self.r as int) + 0xff00_0000,
    {
        self.b as u32 + (self.g as u32) * 256 + (self.r as u32) * 65536 + 0xff00_0000u32
    }
}

/// The packed word of a color holds, least significant byte first, the
/// four bytes that a pixel write stores.
pub proof fn lemma_bgra_bytes(c: Color, word: u32)
    requires
        word as int == c.b as int + 256 * (c.g as int) + 65536 * (c.r as int) + 0xff00_0000,
    ensures
        crate::wire::le_bytes(word) == seq![channel(c, 0), channel(c, 1), channel(c, 2), channel(c, 3)],
{
    let w = word as int;
    assert(w % 256 == c.b) by (nonlinear_arith)
        requires w == c.b as int + 256 * (c.g as int) + 65536 * (c.r as int) + 0xff00_0000, 0 <= c.b < 256, 0 <= c.g < 256, 0 <= c.r < 256;
    assert((w / 256) % 256 == c.g) by (nonlinear_arith)
        requires w == c.b as int + 256 * (c.g as int) + 65536 * (c.r as int) + 0xff00_0000, 0 <= c.b < 256, 0 <= c.g < 256, 0 <= c.r < 256;
    assert((w / 65536) % 256 == c.r) by (nonlinear_arith)
        requires w == c.b as int + 256 * (c.g as int) + 65536 * (c.r as int) + 0xff00_0000, 0 <= c.b < 256, 0 <= c.g < 256, 0 <= c.r < 256;
    assert(w / 16777216 == 255) by (nonlinear_arith)
        requires w == c.b as int + 256 * (c.g as int) + 65536 * (c.r as int) + 0xff00_0000, 0 <= c.b < 256, 0 <= c.g < 256, 0 <= c.r < 256;
    assert(crate::wire::le_bytes(word) =~= seq![channel(c, 0), channel(c, 1), channel(c, 2), channel(c, 3)]);
}

} // verus!
