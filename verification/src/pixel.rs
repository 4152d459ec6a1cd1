//! Pixels and the 8-bit modular arithmetic the format is built on.
use vstd::prelude::*;

verus! {

/// A pixel with red, green, blue and alpha channels of eight bits each.
#[derive(Copy, Clone, Debug, PartialEq, Eq, Structural)]
pub struct Pixel {
    pub r: u8,
    pub g: u8,
    pub b: u8,
    pub a: u8,
}

/// The residue of `x` modulo 256, as a byte.
pub open spec fn wrap8(x: int) -> u8 {
    (x % 256) as u8
}

impl Pixel {
    /// The pixel every decode starts from: opaque black.
    pub open spec fn start() -> Pixel {
        Pixel { r: 0, g: 0, b: 0, a: 255 }
    }

    /// The pixel every cache slot starts with: transparent black.
    pub open spec fn zero() -> Pixel {
        Pixel { r: 0, g: 0, b: 0, a: 0 }
    }

    /// The pixel's hash: `3r + 5g + 7b + 11a` modulo 256.
    pub open spec fn hash(self) -> int {
        (self.r * 3 + self.g * 5 + self.b * 7 + self.a * 11) % 256
    }

    /// The cache slot the pixel belongs to: its hash modulo 64.
    pub open spec fn slot(self) -> int {
        self.hash() % 64
    }

    /// The pixel with the given channels.
    pub fn new(r: u8, g: u8, b: u8, a: u8) -> (p: Pixel)
        ensures
            p == (Pixel { r, g, b, a }),
    {
        Pixel { r, g, b, a }
    }

    /// The four channels in the order red, green, blue, alpha.
    pub fn to_bytes(self) -> (bytes: [u8; 4])
        ensures
            bytes@ == seq![self.r, self.g, self.b, self.a],
    {
        let bytes: [u8; 4] = [self.r, self.g, self.b, self.a];
        assert(bytes@ =~= seq![self.r, self.g, self.b, self.a]);
        bytes
    }
}

/// The default pixel is transparent black. A decode does not start from it
/// but from [`Pixel::start`].
impl Default for Pixel {
    fn default() -> (p: Pixel)
        ensures
            p == Pixel::zero(),
    {
        Pixel::new(0, 0, 0, 0)
    }
}

/// Adding two bytes with wrap-around adds their residues.
pub proof fn lemma_wrapping_add(a: u8, b: u8, x: int, y: int)
    requires
        a as int == x % 256,
        b as int == y % 256,
    ensures
        vstd::wrapping::u8_specs::wrapping_add(a, b) == wrap8(x + y),
{
    vstd::arithmetic::div_mod::lemma_add_mod_noop(x, y, 256);
}

/// Subtracting two bytes with wrap-around subtracts their residues.
pub proof fn lemma_wrapping_sub(a: u8, b: u8, x: int, y: int)
    requires
        a as int == x % 256,
        b as int == y % 256,
    ensures
        vstd::wrapping::u8_specs::wrapping_sub(a, b) == wrap8(x - y),
{
    vstd::arithmetic::div_mod::lemma_sub_mod_noop(x, y, 256);
}

} // verus!
