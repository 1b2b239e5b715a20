use vstd::prelude::*;

use crate::voxel::{VoxelData3D, VoxelType, FIRST_BIT};

verus! {

/// 32 x 32 words; each word packs a run of 32 voxels along one axis, the first
/// voxel in the top bit.
pub type BitMap3D = [[u32; 32]; 32];

/// Whether the `k`-th voxel of a packed run is set (`k` counts from the top bit).
pub open spec fn bit(w: u32, k: int) -> bool {
    (w >> ((31 - k) as u32)) & 1u32 == 1u32
}

/// The voxel that word `[a][b]` of the map along `axis` holds at run index `k`:
/// along x the map is indexed `[y][z]`, along y `[z][x]`, along z `[x][y]`.
pub open spec fn voxel_on(data: VoxelData3D, axis: int, a: int, b: int, k: int) -> VoxelType {
    if axis == 0 {
        data[k][a][b]
    } else if axis == 1 {
        data[b][k][a]
    } else {
        data[a][b][k]
    }
}

/// `m` packs the solidity of `data` along `axis`.
pub open spec fn packs(m: BitMap3D, data: VoxelData3D, axis: int) -> bool {
    forall|a: int, b: int, k: int|
        0 <= a < 32 && 0 <= b < 32 && 0 <= k < 32 ==> (#[trigger] bit(m[a][b], k) <==> voxel_on(
            data,
            axis,
            a,
            b,
            k,
        ).solid())
}

proof fn lemma_bits_of_zero(k: u32)
    requires
        k < 32,
    ensures
        (0u32 >> (31 - k) as u32) & 1u32 == 0u32,
{
    assert((0u32 >> (31 - k) as u32) & 1u32 == 0u32) by (bit_vector)
        requires
            k < 32,
    ;
}

proof fn lemma_set_bit(w: u32, x: u32, k: u32)
    requires
        x < 32,
        k < 32,
    ensures
        ((w | (0x8000_0000u32 >> x)) >> (31 - k) as u32) & 1u32 == (if k == x {
            1u32
        } else {
            (w >> (31 - k) as u32) & 1u32
        }),
{
    assert(((w | (0x8000_0000u32 >> x)) >> (31 - k) as u32) & 1u32 == (if k == x {
        1u32
    } else {
        (w >> (31 - k) as u32) & 1u32
    })) by (bit_vector)
        requires
            x < 32,
            k < 32,
    ;
}

/// One word of a solid map: bit `k` set iff voxel `k` of the run is solid.
fn solid_word(data: &VoxelData3D, axis: u8, a: usize, b: usize) -> (r: u32)
    requires
        axis < 3,
        a < 32,
        b < 32,
    ensures
        forall|k: int| 0 <= k < 32 ==> (bit(r, k) <==> voxel_on(*data, axis as int, a as int, b as int, k).solid()),
{
    let mut w: u32 = 0;
    let mut k: usize = 0;
    assert forall|j: int| 0 <= j < 32 implies !bit(w, j) by {
        lemma_bits_of_zero(j as u32);
    }
    while k < 32
        invariant
            axis < 3,
            a < 32,
            b < 32,
            k <= 32,
            forall|j: int| 0 <= j < k ==> (bit(w, j) <==> voxel_on(*data, axis as int, a as int, b as int, j).solid()),
            forall|j: int| k <= j < 32 ==> !bit(w, j),
        decreases 32 - k,
    {
        let v = if axis == 0 {
            data[k][a][b]
        } else if axis == 1 {
            data[b][k][a]
        } else {
            data[a][b][k]
        };
        let s = v.is_solid_u32();
        let ghost w0 = w;
        if s > 0 {
            w = w | (FIRST_BIT >> (k as u32));
        }
        assert forall|j: int| 0 <= j < 32 implies (bit(w, j) <==> if j == k {
            v.solid()
        } else {
            bit(w0, j)
        }) by {
            if s > 0 {
                lemma_set_bit(w0, k as u32, j as u32);
            }
        }
        k = k + 1;
    }
    w
}

/// The solid map of `data` along `axis` (0 = x, 1 = y, 2 = z).
pub fn solid_map(data: &VoxelData3D, axis: u8) -> (r: BitMap3D)
    requires
        axis < 3,
    ensures
        packs(r, *data, axis as int),
{
    let mut m: BitMap3D = [[0u32; 32]; 32];
    let mut a: usize = 0;
    while a < 32
        invariant
            axis < 3,
            a <= 32,
            forall|i: int, b: int, k: int|
                0 <= i < a && 0 <= b < 32 && 0 <= k < 32 ==> (#[trigger] bit(m[i][b], k) <==> voxel_on(
                    *data,
                    axis as int,
                    i,
                    b,
                    k,
                ).solid()),
        decreases 32 - a,
    {
        let mut row: [u32; 32] = [0u32; 32];
        let mut b: usize = 0;
        while b < 32
            invariant
                axis < 3,
                a < 32,
                b <= 32,
                forall|j: int, k: int|
                    0 <= j < b && 0 <= k < 32 ==> (#[trigger] bit(row[j], k) <==> voxel_on(
                        *data,
                        axis as int,
                        a as int,
                        j,
                        k,
                    ).solid()),
            decreases 32 - b,
        {
            let w = solid_word(data, axis, a, b);
            row[b] = w;
            b = b + 1;
        }
        m[a] = row;
        a = a + 1;
    }
    m
}

/// Voxel `k` of run `w` is solid and the voxel before it is not; before the first
/// voxel lies the last voxel of the neighbor's run `n`.
pub open spec fn exposed_low(w: u32, n: u32, k: int) -> bool {
    bit(w, k) && if k > 0 {
        !bit(w, k - 1)
    } else {
        !bit(n, 31)
    }
}

/// Voxel `k` of run `w` is solid and the voxel after it is not; after the last
/// voxel lies the first voxel of the neighbor's run `p`.
pub open spec fn exposed_high(w: u32, p: u32, k: int) -> bool {
    bit(w, k) && if k < 31 {
        !bit(w, k + 1)
    } else {
        !bit(p, 0)
    }
}

proof fn lemma_low_face(w: u32, n: u32, k: u32)
    requires
        k < 32,
    ensures
        bit(w & !((w >> 1u32) | (n << 31u32)), k as int) == exposed_low(w, n, k as int),
{
    assert((((w & !((w >> 1u32) | (n << 31u32))) >> (31 - k) as u32) & 1u32 == 1u32) == (((w >> (31
        - k) as u32) & 1u32 == 1u32) && if k > 0 {
        !((w >> (31 - (k - 1)) as u32) & 1u32 == 1u32)
    } else {
        !((n >> 0u32) & 1u32 == 1u32)
    })) by (bit_vector)
        requires
            k < 32,
    ;
}

proof fn lemma_high_face(w: u32, p: u32, k: u32)
    requires
        k < 32,
    ensures
        bit(w & !((w << 1u32) | (p >> 31u32)), k as int) == exposed_high(w, p, k as int),
{
    assert((((w & !((w << 1u32) | (p >> 31u32))) >> (31 - k) as u32) & 1u32 == 1u32) == (((w >> (31
        - k) as u32) & 1u32 == 1u32) && if k < 31 {
        !((w >> (31 - (k + 1)) as u32) & 1u32 == 1u32)
    } else {
        !((p >> 31u32) & 1u32 == 1u32)
    })) by (bit_vector)
        requires
            k < 32,
    ;
}

/// The exposed faces on one side of every voxel: towards lower run indices when
/// `high` is false, towards higher ones when it is true. `n` is the neighbor
/// chunk's map on that side.
fn face_map(m: &BitMap3D, n: &BitMap3D, high: bool) -> (r: BitMap3D)
    ensures
        forall|a: int, b: int, k: int|
            0 <= a < 32 && 0 <= b < 32 && 0 <= k < 32 ==> (#[trigger] bit(r[a][b], k) <==> if high {
                exposed_high(m[a][b], n[a][b], k)
            } else {
                exposed_low(m[a][b], n[a][b], k)
            }),
{
    let mut r: BitMap3D = [[0u32; 32]; 32];
    let mut a: usize = 0;
    while a < 32
        invariant
            a <= 32,
            forall|i: int, b: int, k: int|
                0 <= i < a && 0 <= b < 32 && 0 <= k < 32 ==> (#[trigger] bit(r[i][b], k) <==> if high {
                    exposed_high(m[i][b], n[i][b], k)
                } else {
                    exposed_low(m[i][b], n[i][b], k)
                }),
        decreases 32 - a,
    {
        let mut row: [u32; 32] = [0u32; 32];
        let mut b: usize = 0;
        while b < 32
            invariant
                a < 32,
                b <= 32,
                forall|j: int, k: int|
                    0 <= j < b && 0 <= k < 32 ==> (#[trigger] bit(row[j], k) <==> if high {
                        exposed_high(m[a as int][j], n[a as int][j], k)
                    } else {
                        exposed_low(m[a as int][j], n[a as int][j], k)
                    }),
            decreases 32 - b,
        {
            let w = m[a][b];
            let nw = n[a][b];
            let f = if high {
                w & !((w << 1u32) | (nw >> 31u32))
            } else {
                w & !((w >> 1u32) | (nw << 31u32))
            };
            assert forall|k: int| 0 <= k < 32 implies (bit(f, k) <==> if high {
                exposed_high(w, nw, k)
            } else {
                exposed_low(w, nw, k)
            }) by {
                if high {
                    lemma_high_face(w, nw, k as u32);
                } else {
                    lemma_low_face(w, nw, k as u32);
                }
            }
            row[b] = f;
            b = b + 1;
        }
        r[a] = row;
        a = a + 1;
    }
    r
}

/// The naive check for face `d` (0 = -x, 1 = +x, 2 = -y, 3 = +y, 4 = -z, 5 = +z) of
/// voxel `k` of run `[a][b]` along the face's axis: the voxel is solid and the voxel
/// beside it on that side is air. Across the chunk boundary the voxel beside it
/// belongs to `beyond`, the neighbor chunk on that side.
pub open spec fn face_exposed(center: VoxelData3D, beyond: VoxelData3D, d: int, a: int, b: int, k: int) -> bool {
    let axis = d / 2;
    let beside = if d % 2 == 0 {
        if k > 0 {
            voxel_on(center, axis, a, b, k - 1)
        } else {
            voxel_on(beyond, axis, a, b, 31)
        }
    } else {
        if k < 31 {
            voxel_on(center, axis, a, b, k + 1)
        } else {
            voxel_on(beyond, axis, a, b, 0)
        }
    };
    voxel_on(center, axis, a, b, k).solid() && !beside.solid()
}

/// The six visibility masks of `center`, whose neighbor chunks are `neighbors`
/// (in the order -x, +x, -y, +y, -z, +z). Mask `d` is indexed like the solid map
/// along its axis, and a bit is set exactly where the face is exposed.
pub fn visibility_masks(center: &VoxelData3D, neighbors: &[VoxelData3D; 6]) -> (r: [BitMap3D; 6])
    ensures
        forall|d: int, a: int, b: int, k: int|
            0 <= d < 6 && 0 <= a < 32 && 0 <= b < 32 && 0 <= k < 32 ==> (#[trigger] bit(r[d][a][b], k)
                <==> face_exposed(*center, neighbors[d], d, a, b, k)),
{
    let xa = solid_map(center, 0);
    let ya = solid_map(center, 1);
    let za = solid_map(center, 2);
    let n0 = solid_map(&neighbors[0], 0);
    let n1 = solid_map(&neighbors[1], 0);
    let n2 = solid_map(&neighbors[2], 1);
    let n3 = solid_map(&neighbors[3], 1);
    let n4 = solid_map(&neighbors[4], 2);
    let n5 = solid_map(&neighbors[5], 2);
    let r = [
        face_map(&xa, &n0, false),
        face_map(&xa, &n1, true),
        face_map(&ya, &n2, false),
        face_map(&ya, &n3, true),
        face_map(&za, &n4, false),
        face_map(&za, &n5, true),
    ];
    assert forall|d: int, a: int, b: int, k: int|
        0 <= d < 6 && 0 <= a < 32 && 0 <= b < 32 && 0 <= k < 32 implies (#[trigger] bit(r[d][a][b], k)
            <==> face_exposed(*center, neighbors[d], d, a, b, k)) by {
        if k > 0 {
            assert(bit(xa[a][b], k - 1) <==> voxel_on(*center, 0, a, b, k - 1).solid());
            assert(bit(ya[a][b], k - 1) <==> voxel_on(*center, 1, a, b, k - 1).solid());
            assert(bit(za[a][b], k - 1) <==> voxel_on(*center, 2, a, b, k - 1).solid());
        }
        if k < 31 {
            assert(bit(xa[a][b], k + 1) <==> voxel_on(*center, 0, a, b, k + 1).solid());
            assert(bit(ya[a][b], k + 1) <==> voxel_on(*center, 1, a, b, k + 1).solid());
            assert(bit(za[a][b], k + 1) <==> voxel_on(*center, 2, a, b, k + 1).solid());
        }
        assert(bit(n0[a][b], 31) <==> voxel_on(neighbors[0], 0, a, b, 31).solid());
        assert(bit(n1[a][b], 0) <==> voxel_on(neighbors[1], 0, a, b, 0).solid());
        assert(bit(n2[a][b], 31) <==> voxel_on(neighbors[2], 1, a, b, 31).solid());
        assert(bit(n3[a][b], 0) <==> voxel_on(neighbors[3], 1, a, b, 0).solid());
        assert(bit(n4[a][b], 31) <==> voxel_on(neighbors[4], 2, a, b, 31).solid());
        assert(bit(n5[a][b], 0) <==> voxel_on(neighbors[5], 2, a, b, 0).solid());
    }
    r
}

} // verus!
