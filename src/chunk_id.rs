use vstd::arithmetic::div_mod::{lemma_fundamental_div_mod, lemma_fundamental_div_mod_converse};
use vstd::arithmetic::power2::{lemma2_to64, lemma_pow2_pos, pow2};
use vstd::bits::lemma_u32_shr_is_div;
use vstd::prelude::*;

use crate::MAX_LOD;

verus! {

/// Level of detail: a chunk of level `k` spans `2^k` chunks of level zero per axis.
pub type LodLevel = u16;

/// An integer position in three dimensions.
#[derive(Debug, Clone, Copy, PartialEq, Eq, Structural, Hash)]
pub struct IVec3 {
    pub x: i32,
    pub y: i32,
    pub z: i32,
}

impl IVec3 {
    pub fn new(x: i32, y: i32, z: i32) -> (r: IVec3)
        ensures
            r.x == x && r.y == y && r.z == z,
    {
        IVec3 { x, y, z }
    }
}

/// `v` divided by `2^n`, rounded towards negative infinity: an arithmetic right shift.
pub open spec fn shr_spec(v: int, n: nat) -> int {
    v / (pow2(n) as int)
}

proof fn lemma_div_of_negative(m: int, d: int)
    requires
        m >= 0,
        d > 0,
    ensures
        (-(m + 1)) / d == -(m / d) - 1,
{
    lemma_fundamental_div_mod(m, d);
    let q = m / d;
    let r = m % d;
    assert(-(m + 1) == (-q - 1) * d + (d - r - 1)) by (nonlinear_arith)
        requires
            m == d * q + r,
    ;
    lemma_fundamental_div_mod_converse(-(m + 1), d, -q - 1, d - r - 1);
}

/// Arithmetic right shift of a signed coordinate.
pub fn shr_floor(v: i32, n: u32) -> (r: i32)
    requires
        n < 32,
    ensures
        r as int == shr_spec(v as int, n as nat),
{
    proof {
        lemma_pow2_pos(n as nat);
    }
    if v >= 0 {
        let u = v as u32;
        let s = u >> n;
        proof {
            lemma_u32_shr_is_div(u, n);
            assert(s <= u) by (nonlinear_arith)
                requires
                    s == u as nat / pow2(n as nat),
                    pow2(n as nat) > 0,
            ;
        }
        s as i32
    } else {
        let m = (-(v as i64) - 1) as u32;
        let s = m >> n;
        proof {
            lemma_u32_shr_is_div(m, n);
            assert(s <= m) by (nonlinear_arith)
                requires
                    s == m as nat / pow2(n as nat),
                    pow2(n as nat) > 0,
            ;
            lemma_div_of_negative(m as int, pow2(n as nat) as int);
        }
        -(s as i32) - 1
    }
}

/// The key of a chunk: a level of detail and a position in chunks of that level.
/// Its world cell spans `[pos * 32 * 2^lod, (pos + 1) * 32 * 2^lod)` voxels per axis.
#[derive(Debug, Clone, Copy, PartialEq, Eq, Structural, Hash)]
pub struct ChunkID {
    pub lod: LodLevel,
    pub pos: IVec3,
}

/// Two chunks overlap when the finer one's position, shifted down to the coarser
/// level, is the coarser one's position.
pub open spec fn overlaps_spec(a: ChunkID, b: ChunkID) -> bool {
    if a.lod == b.lod {
        a.pos == b.pos
    } else if a.lod > b.lod {
        let d = (a.lod - b.lod) as nat;
        shr_spec(b.pos.x as int, d) == a.pos.x && shr_spec(b.pos.y as int, d) == a.pos.y
            && shr_spec(b.pos.z as int, d) == a.pos.z
    } else {
        let d = (b.lod - a.lod) as nat;
        shr_spec(a.pos.x as int, d) == b.pos.x && shr_spec(a.pos.y as int, d) == b.pos.y
            && shr_spec(a.pos.z as int, d) == b.pos.z
    }
}

/// Coordinate offset of a 32-bit signed value, so that it reads as an unsigned one.
pub open spec fn biased(v: i32) -> u128 {
    (v as int + 0x8000_0000) as u128
}

/// The chunk's fields packed into one integer: level, then x, y and z.
pub open spec fn key_of(c: ChunkID) -> u128 {
    ((c.lod as u128) << 96u128) | (biased(c.pos.x) << 64u128) | (biased(c.pos.y) << 32u128)
        | biased(c.pos.z)
}

proof fn lemma_key_fields(a: u128, b: u128, c: u128, d: u128)
    requires
        a < 0x1_0000,
        b < 0x1_0000_0000,
        c < 0x1_0000_0000,
        d < 0x1_0000_0000,
    ensures
        ((a << 96u128) | (b << 64u128) | (c << 32u128) | d) >> 96u128 == a,
        (((a << 96u128) | (b << 64u128) | (c << 32u128) | d) >> 64u128) & 0xffff_ffffu128 == b,
        (((a << 96u128) | (b << 64u128) | (c << 32u128) | d) >> 32u128) & 0xffff_ffffu128 == c,
        ((a << 96u128) | (b << 64u128) | (c << 32u128) | d) & 0xffff_ffffu128 == d,
{
    assert(((a << 96u128) | (b << 64u128) | (c << 32u128) | d) >> 96u128 == a) by (bit_vector)
        requires
            a < 0x1_0000,
            b < 0x1_0000_0000,
            c < 0x1_0000_0000,
            d < 0x1_0000_0000,
    ;
    assert((((a << 96u128) | (b << 64u128) | (c << 32u128) | d) >> 64u128) & 0xffff_ffffu128 == b)
        by (bit_vector)
        requires
            b < 0x1_0000_0000,
            c < 0x1_0000_0000,
            d < 0x1_0000_0000,
    ;
    assert((((a << 96u128) | (b << 64u128) | (c << 32u128) | d) >> 32u128) & 0xffff_ffffu128 == c)
        by (bit_vector)
        requires
            c < 0x1_0000_0000,
            d < 0x1_0000_0000,
    ;
    assert(((a << 96u128) | (b << 64u128) | (c << 32u128) | d) & 0xffff_ffffu128 == d)
        by (bit_vector)
        requires
            d < 0x1_0000_0000,
    ;
}

/// Distinct chunks have distinct keys.
pub proof fn lemma_key_injective(a: ChunkID, b: ChunkID)
    ensures
        key_of(a) == key_of(b) <==> a == b,
{
    lemma_key_fields(a.lod as u128, biased(a.pos.x), biased(a.pos.y), biased(a.pos.z));
    lemma_key_fields(b.lod as u128, biased(b.pos.x), biased(b.pos.y), biased(b.pos.z));
}

impl ChunkID {
    pub fn new(lod: LodLevel, pos: IVec3) -> (r: ChunkID)
        ensures
            r.lod == lod && r.pos == pos,
    {
        ChunkID { lod, pos }
    }

    pub open spec fn parent_spec(self) -> ChunkID {
        ChunkID {
            lod: (self.lod + 1) as u16,
            pos: IVec3 {
                x: (self.pos.x as int / 2) as i32,
                y: (self.pos.y as int / 2) as i32,
                z: (self.pos.z as int / 2) as i32,
            },
        }
    }

    /// The chunk one level coarser that covers this one.
    pub fn parent(self) -> (r: ChunkID)
        requires
            self.lod < u16::MAX,
        ensures
            r == self.parent_spec(),
            r.lod == self.lod + 1,
            r.pos.x == self.pos.x as int / 2,
            r.pos.y == self.pos.y as int / 2,
            r.pos.z == self.pos.z as int / 2,
    {
        proof {
            lemma2_to64();
        }
        ChunkID {
            lod: self.lod + 1,
            pos: IVec3 {
                x: shr_floor(self.pos.x, 1),
                y: shr_floor(self.pos.y, 1),
                z: shr_floor(self.pos.z, 1),
            },
        }
    }

    /// The position of the chunk's corner in chunks of level zero:
    /// `pos * 2^lod`, which must fit in 32 bits.
    pub fn total_pos(self) -> (r: IVec3)
        requires
            self.lod <= MAX_LOD,
            i32::MIN <= self.pos.x * pow2(self.lod as nat) <= i32::MAX,
            i32::MIN <= self.pos.y * pow2(self.lod as nat) <= i32::MAX,
            i32::MIN <= self.pos.z * pow2(self.lod as nat) <= i32::MAX,
        ensures
            r.x == self.pos.x * pow2(self.lod as nat),
            r.y == self.pos.y * pow2(self.lod as nat),
            r.z == self.pos.z * pow2(self.lod as nat),
    {
        let s = self.size();
        IVec3 { x: self.pos.x * s, y: self.pos.y * s, z: self.pos.z * s }
    }

    /// The edge length of the chunk in chunks of level zero: `2^lod`.
    pub fn size(self) -> (r: i32)
        requires
            self.lod <= MAX_LOD,
        ensures
            r == pow2(self.lod as nat),
            1 <= r <= 256,
    {
        proof {
            lemma2_to64();
        }
        match self.lod {
            0 => 1,
            1 => 2,
            2 => 4,
            3 => 8,
            4 => 16,
            5 => 32,
            6 => 64,
            7 => 128,
            _ => 256,
        }
    }

    /// The chunk's fields packed into one integer, distinct for distinct chunks.
    pub fn key(self) -> (r: u128)
        ensures
            r == key_of(self),
    {
        let bx = (self.pos.x as i64 + 0x8000_0000) as u128;
        let by = (self.pos.y as i64 + 0x8000_0000) as u128;
        let bz = (self.pos.z as i64 + 0x8000_0000) as u128;
        ((self.lod as u128) << 96u128) | (bx << 64u128) | (by << 32u128) | bz
    }
}

/// Whether the world cells of two chunks intersect.
pub fn chunk_overlaps(a: &ChunkID, b: ChunkID) -> (r: bool)
    requires
        a.lod - b.lod < 32,
        b.lod - a.lod < 32,
    ensures
        r == overlaps_spec(*a, b),
{
    if a.lod == b.lod {
        return a.pos == b.pos;
    }
    if a.lod > b.lod {
        let shift = (a.lod - b.lod) as u32;
        return shr_floor(b.pos.x, shift) == a.pos.x && shr_floor(b.pos.y, shift) == a.pos.y
            && shr_floor(b.pos.z, shift) == a.pos.z;
    }
    let shift = (b.lod - a.lod) as u32;
    shr_floor(a.pos.x, shift) == b.pos.x && shr_floor(a.pos.y, shift) == b.pos.y && shr_floor(
        a.pos.z,
        shift,
    ) == b.pos.z
}

/// A chunk's position lies in the two-wide block that starts at twice its
/// parent's position, on every axis.
pub proof fn lemma_parent_brackets(id: ChunkID)
    requires
        id.lod < u16::MAX,
    ensures
        2 * id.parent_spec().pos.x <= id.pos.x < 2 * id.parent_spec().pos.x + 2,
        2 * id.parent_spec().pos.y <= id.pos.y < 2 * id.parent_spec().pos.y + 2,
        2 * id.parent_spec().pos.z <= id.pos.z < 2 * id.parent_spec().pos.z + 2,
{
    lemma2_to64();
    lemma_fundamental_div_mod(id.pos.x as int, 2);
    lemma_fundamental_div_mod(id.pos.y as int, 2);
    lemma_fundamental_div_mod(id.pos.z as int, 2);
}

} // verus!
