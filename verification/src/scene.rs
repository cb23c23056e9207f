use vstd::prelude::*;
use crate::color::Color;

verus! {

/// The multiplier of the 64-bit linear congruential generator; the increment
/// is 1.
pub const LCG_MULTIPLIER: u64 = 6364136223846793005;

/// A 64-bit linear congruential generator. The scene uses it wherever it
/// needs cheap deterministic pseudo-randomness (asteroid spawning); its whole
/// behaviour is pinned, so a fixed seed replays a fixed sequence.
pub struct Lcg(u64);

impl Lcg {
    /// The generator's current 64-bit state.
    pub closed spec fn spec_state(&self) -> u64 {
        self.0
    }

    pub fn new(seed: u64) -> (r: Lcg)
        ensures
            r.spec_state() == seed,
    {
        Lcg(seed)
    }

    /// Advances the state by one multiply-add step modulo 2^64 and returns
    /// its high 32 bits.
    pub fn next_u32(&mut self) -> (r: u32)
        ensures
            final(self).spec_state() == (old(self).spec_state() * LCG_MULTIPLIER + 1)
                % 0x1_0000_0000_0000_0000,
            r == final(self).spec_state() / 0x1_0000_0000,
    {
        let next = self.0.wrapping_mul(LCG_MULTIPLIER).wrapping_add(1);
        proof {
            lemma_mul_add_one_mod(old(self).spec_state(), next);
        }
        self.0 = next;
        let hi = self.0 >> 32;
        proof {
            let s = self.0;
            assert((s >> 32) == s / 0x1_0000_0000 && (s >> 32) < 0x1_0000_0000) by (bit_vector);
        }
        hi as u32
    }
}

proof fn lemma_mul_add_one_mod(s: u64, next: u64)
    by (nonlinear_arith)
    requires
        next == if (s as nat * LCG_MULTIPLIER as nat) % 0x1_0000_0000_0000_0000 + 1
            > 0xFFFF_FFFF_FFFF_FFFF {
            ((s as nat * LCG_MULTIPLIER as nat) % 0x1_0000_0000_0000_0000 + 1
                - 0x1_0000_0000_0000_0000) as u64
        } else {
            ((s as nat * LCG_MULTIPLIER as nat) % 0x1_0000_0000_0000_0000 + 1) as u64
        },
    ensures
        next == (s * LCG_MULTIPLIER + 1) % 0x1_0000_0000_0000_0000,
{
}

/// The flat-shading fallback palette for bodies too small on screen to be
/// worth a procedural shader, indexed by orbit position (1 nearest the
/// star); any other index falls to a neutral grey.
pub open spec fn spec_planet_color(index: int) -> Color {
    if index == 1 {
        Color { r: 153, g: 137, b: 117 }
    } else if index == 2 {
        Color { r: 237, g: 214, b: 158 }
    } else if index == 3 {
        Color { r: 63, g: 140, b: 71 }
    } else if index == 4 {
        Color { r: 198, g: 107, b: 71 }
    } else if index == 5 {
        Color { r: 219, g: 188, b: 147 }
    } else if index == 6 {
        Color { r: 234, g: 219, b: 183 }
    } else if index == 7 {
        Color { r: 142, g: 214, b: 224 }
    } else if index == 8 {
        Color { r: 25, g: 91, b: 204 }
    } else {
        Color { r: 178, g: 178, b: 178 }
    }
}

/// The fallback draw color for the body at `index`: see
/// [`spec_planet_color`].
pub fn planet_color(index: usize) -> (c: Color)
    ensures
        c == spec_planet_color(index as int),
{
    match index {
        1 => Color::new(153, 137, 117),
        2 => Color::new(237, 214, 158),
        3 => Color::new(63, 140, 71),
        4 => Color::new(198, 107, 71),
        5 => Color::new(219, 188, 147),
        6 => Color::new(234, 219, 183),
        7 => Color::new(142, 214, 224),
        8 => Color::new(25, 91, 204),
        _ => Color::new(178, 178, 178),
    }
}

} // verus!
