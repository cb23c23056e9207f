use vstd::prelude::*;

verus! {

/// An 8-bit-per-channel color. All arithmetic on it saturates into
/// `[0, 255]`; channels never wrap.
#[derive(Clone, Copy, Debug, PartialEq, Eq, Structural)]
pub struct Color {
    pub r: u8,
    pub g: u8,
    pub b: u8,
}

/// Saturating addition of two channels: the sum, capped at 255.
pub open spec fn sat_add(a: u8, b: u8) -> u8 {
    if a + b > 255 {
        255u8
    } else {
        (a + b) as u8
    }
}

/// The red channel of a packed `0xRRGGBB` value.
pub open spec fn hex_r(p: u32) -> u8 {
    ((p / 0x10000) % 0x100) as u8
}

/// The green channel of a packed `0xRRGGBB` value.
pub open spec fn hex_g(p: u32) -> u8 {
    ((p / 0x100) % 0x100) as u8
}

/// The blue channel of a packed `0xRRGGBB` value.
pub open spec fn hex_b(p: u32) -> u8 {
    (p % 0x100) as u8
}

/// Additively blends `c` into the packed pixel `p`, channel by channel,
/// saturating at 255; the high byte of `p` is discarded.
pub open spec fn blend_hex(p: u32, c: Color) -> u32 {
    (Color {
        r: sat_add(hex_r(p), c.r),
        g: sat_add(hex_g(p), c.g),
        b: sat_add(hex_b(p), c.b),
    }).spec_hex()
}

impl Color {
    /// The `0xRRGGBB` packing of this color as a 24-bit number.
    pub open spec fn spec_hex(self) -> u32 {
        ((self.r as u32) * 0x10000 + (self.g as u32) * 0x100 + (self.b as u32)) as u32
    }

    pub fn new(r: u8, g: u8, b: u8) -> (c: Color)
        ensures
            c == (Color { r, g, b }),
    {
        Color { r, g, b }
    }

    /// Packs the three channels into a `0xRRGGBB` integer.
    pub fn to_hex(self) -> (h: u32)
        ensures
            h == self.spec_hex(),
    {
        let r = self.r as u32;
        let g = self.g as u32;
        let b = self.b as u32;
        proof {
            assert((r << 16) | (g << 8) | b == r * 0x10000 + g * 0x100 + b) by (bit_vector)
                requires
                    r < 0x100,
                    g < 0x100,
                    b < 0x100,
            ;
        }
        (r << 16) | (g << 8) | b
    }

    /// Per-channel saturating addition.
    pub fn add(self, o: Color) -> (c: Color)
        ensures
            c.r == sat_add(self.r, o.r),
            c.g == sat_add(self.g, o.g),
            c.b == sat_add(self.b, o.b),
    {
        Color {
            r: self.r.saturating_add(o.r),
            g: self.g.saturating_add(o.g),
            b: self.b.saturating_add(o.b),
        }
    }
}

} // verus!
