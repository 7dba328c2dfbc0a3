//! Morton (Z-order) encoding: a point quantised to the 10-bit lattice of the
//! unit cube becomes a 30-bit code whose bits interleave the three axes.

use vstd::prelude::*;
use vstd::std_specs::bits::u32_leading_zeros;

verus! {

/// A 32-bit Morton code with 30 significant bits: 10 bits per axis,
/// interleaved, ordered as an unsigned integer.
#[derive(Clone, Copy, PartialEq, Eq, Structural, Debug)]
pub struct Morton(pub u32);

impl Morton {
    /// Bitwise exclusive or of two codes; its leading zeros measure the
    /// length of their shared bit prefix.
    pub fn bitxor(self, rhs: Self) -> (r: Self)
        ensures
            r.0 == self.0 ^ rhs.0,
    {
        Morton(self.0 ^ rhs.0)
    }

    pub fn leading_zeros(&self) -> (r: u32)
        ensures
            r == u32_leading_zeros(self.0),
    {
        self.0.leading_zeros()
    }
}

/// Bit dilation: bit `i` of a 10-bit value moves to bit `3 i`, every other
/// bit of the result is zero.
pub open spec fn spec_dilate(v: u32) -> u32 {
    (v & 1) | (((v >> 1) & 1) << 3) | (((v >> 2) & 1) << 6) | (((v >> 3) & 1) << 9)
        | (((v >> 4) & 1) << 12) | (((v >> 5) & 1) << 15) | (((v >> 6) & 1) << 18)
        | (((v >> 7) & 1) << 21) | (((v >> 8) & 1) << 24) | (((v >> 9) & 1) << 27)
}

/// The three dilated axes interleaved: x at bit offset 2 of each 3-bit
/// group, y at offset 1, z at offset 0.
pub open spec fn spec_morton(x: u32, y: u32, z: u32) -> u32 {
    (spec_dilate(x) << 2) | (spec_dilate(y) << 1) | spec_dilate(z)
}

pub proof fn lemma_dilate_bound(v: u32)
    ensures
        spec_dilate(v) <= 0x0924_9249,
{
    assert(spec_dilate(v) <= 0x0924_9249u32) by (bit_vector);
}

pub proof fn lemma_morton_bound(x: u32, y: u32, z: u32)
    ensures
        spec_morton(x, y, z) < 0x4000_0000,
{
    assert(spec_morton(x, y, z) < 0x4000_0000u32) by (bit_vector);
}

proof fn lemma_mask_bounds()
    by (bit_vector)
    ensures
        forall|x: u64| #[trigger] (x & 0xFF00_00FF) <= 0xFF00_00FF,
        forall|x: u64| #[trigger] (x & 0x0F00_F00F) <= 0x0F00_F00F,
        forall|x: u64| #[trigger] (x & 0xC30C_30C3) <= 0xC30C_30C3,
        forall|x: u64| #[trigger] (x & 0x4924_9249) <= 0x4924_9249,
{
}

/// Spreads the low 10 bits of `v` so that two zero bits follow each of them,
/// by the multiply-and-mask cascade; modular arithmetic is intended, and the
/// 64-bit intermediate products make each wrapped 32-bit step exact.
pub fn expand_bits(v: u32) -> (r: u32)
    requires
        v < 1024,
    ensures
        r == spec_dilate(v),
{
    proof {
        lemma_mask_bounds();
    }
    let a: u64 = ((v as u64) * 0x0001_0001) & 0xFF00_00FF;
    let b: u64 = (a * 0x0000_0101) & 0x0F00_F00F;
    let c: u64 = (b * 0x0000_0011) & 0xC30C_30C3;
    let d: u64 = (c * 0x0000_0005) & 0x4924_9249;
    proof {
        let vv = v;
        assert({
            let a2 = (((vv as u64) * 0x0001_0001) as u64) & 0xFF00_00FF;
            let b2 = ((a2 * 0x0000_0101) as u64) & 0x0F00_F00F;
            let c2 = ((b2 * 0x0000_0011) as u64) & 0xC30C_30C3;
            let d2 = ((c2 * 0x0000_0005) as u64) & 0x4924_9249;
            d2 == spec_dilate(vv) as u64
        }) by (bit_vector)
            requires
                vv < 1024,
        ;
    }
    d as u32
}

/// The Morton code of a quantised point: each coordinate already lies on the
/// 10-bit lattice.
pub fn morton_3d(x: u32, y: u32, z: u32) -> (r: Morton)
    requires
        x < 1024,
        y < 1024,
        z < 1024,
    ensures
        r.0 == spec_morton(x, y, z),
        r.0 < 0x4000_0000,
{
    let xx = expand_bits(x);
    let yy = expand_bits(y);
    let zz = expand_bits(z);
    proof {
        lemma_dilate_bound(x);
        lemma_dilate_bound(y);
        lemma_dilate_bound(z);
        lemma_morton_bound(x, y, z);
        assert(spec_dilate(x) * 4 + spec_dilate(y) * 2 + spec_dilate(z) == spec_morton(x, y, z))
            by (bit_vector);
    }
    Morton(xx * 4 + yy * 2 + zz)
}

} // verus!
