use vstd::arithmetic::power2::pow2;
use vstd::prelude::*;

use crate::chunk::Level;
use crate::chunk_id::{ChunkID, IVec3};
use crate::frustum::{neighbor, neighbor_spec};
use crate::mesh::{instance_kind, kind_spec, Instance, Mesh};
use crate::occlusion::{bit, visibility_masks, voxel_on, BitMap3D};
use crate::voxel::{fill, VoxelData3D, VoxelType, FIRST_BIT};
use crate::MAX_LOD;

verus! {

/// Voxel `l` of a chunk at position `p` (one axis) lies at this world coordinate,
/// in voxels of level zero.
pub open spec fn world_coord(p: i32, l: int, lod: u16) -> int {
    (p * 32 + l) * pow2(lod as nat)
}

/// The chunk's cell on one axis fits in 32-bit world coordinates.
pub open spec fn coord_fits(p: i32, lod: u16) -> bool {
    i32::MIN <= p * 32 * pow2(lod as nat) && (p * 32 + 32) * pow2(lod as nat) <= i32::MAX + 1
}

/// The chunk's whole world cell has 32-bit coordinates.
pub open spec fn cell_fits(c: ChunkID) -> bool {
    c.lod <= MAX_LOD && coord_fits(c.pos.x, c.lod) && coord_fits(c.pos.y, c.lod) && coord_fits(
        c.pos.z,
        c.lod,
    )
}

/// The bit of mask `d` that stands for voxel `(x, y, z)`.
pub open spec fn face_bit(faces: [BitMap3D; 6], d: int, x: int, y: int, z: int) -> bool {
    if d / 2 == 0 {
        bit(faces[d][y][z], x)
    } else if d / 2 == 1 {
        bit(faces[d][z][x], y)
    } else {
        bit(faces[d][x][y], z)
    }
}

/// Face `d` of voxel `(x, y, z)` is drawn: the voxel is solid and its mask bit set.
pub open spec fn emits(data: VoxelData3D, faces: [BitMap3D; 6], d: int, x: int, y: int, z: int) -> bool {
    data[x][y][z].solid() && face_bit(faces, d, x, y, z)
}

pub open spec fn instance_at(c: ChunkID, data: VoxelData3D, x: int, y: int, z: int) -> Instance {
    Instance {
        pos: IVec3 {
            x: world_coord(c.pos.x, x, c.lod) as i32,
            y: world_coord(c.pos.y, y, c.lod) as i32,
            z: world_coord(c.pos.z, z, c.lod) as i32,
        },
        kind: kind_spec(c.lod, data[x][y][z].texture_spec()),
    }
}

/// The instances facing `d` that the first `n` voxels give, voxels taken in
/// `[x][y][z]` order.
pub open spec fn bucket_upto(c: ChunkID, data: VoxelData3D, faces: [BitMap3D; 6], d: int, n: nat) -> Seq<Instance>
    decreases n,
{
    if n == 0 {
        Seq::empty()
    } else {
        let i = n - 1;
        let x = i / 1024;
        let y = (i / 32) % 32;
        let z = i % 32;
        let prev = bucket_upto(c, data, faces, d, (n - 1) as nat);
        if emits(data, faces, d, x, y, z) {
            prev.push(instance_at(c, data, x, y, z))
        } else {
            prev
        }
    }
}

proof fn lemma_mask_test(w: u32, k: u32)
    requires
        k < 32,
    ensures
        ((w & (0x8000_0000u32 >> k)) != 0u32) == bit(w, k as int),
{
    assert(((w & (0x8000_0000u32 >> k)) != 0u32) == ((w >> (31 - k) as u32) & 1u32 == 1u32))
        by (bit_vector)
        requires
            k < 32,
    ;
}

/// Whether the mask word `w` marks voxel `k` of its run.
fn mask_has(w: u32, k: usize) -> (r: bool)
    requires
        k < 32,
    ensures
        r == bit(w, k as int),
{
    proof {
        lemma_mask_test(w, k as u32);
    }
    (w & (FIRST_BIT >> (k as u32))) != 0
}

/// The world coordinate of voxel `l` of the chunk at `p` on one axis.
fn world(p: i32, l: usize, lod: u16, size: i32) -> (r: i32)
    requires
        l < 32,
        lod <= MAX_LOD,
        size == pow2(lod as nat),
        1 <= size <= 256,
        coord_fits(p, lod),
    ensures
        r == world_coord(p, l as int, lod),
{
    let a = p as i64 * 32 + l as i64;
    let s = size as i64;
    assert(i32::MIN <= a * s <= i32::MAX) by (nonlinear_arith)
        requires
            1 <= s,
            a == p * 32 + l,
            0 <= l < 32,
            i32::MIN <= p * 32 * s,
            (p * 32 + 32) * s <= i32::MAX + 1,
    ;
    (a * s) as i32
}

/// The mesh of a chunk: for every solid voxel, in `[x][y][z]` order, each face
/// whose bit is set in `faces` becomes an instance in that direction's bucket, at
/// the voxel's world position `(chunk.pos * 32 + local) << chunk.lod` and with the
/// kind `chunk.lod << 16 | texture`.
pub fn generate_mesh(chunk: ChunkID, data: &VoxelData3D, faces: &[BitMap3D; 6]) -> (r: Mesh)
    requires
        cell_fits(chunk),
    ensures
        forall|d: int| 0 <= d < 6 ==> #[trigger] r.bucket(d) == bucket_upto(chunk, *data, *faces, d, 32768),
{
    let size = chunk.size();
    let mut mesh = Mesh::new();
    let mut i: usize = 0;
    while i < 32768
        invariant
            i <= 32768,
            cell_fits(chunk),
            size == pow2(chunk.lod as nat),
            1 <= size <= 256,
            forall|d: int| 0 <= d < 6 ==> #[trigger] mesh.bucket(d) == bucket_upto(chunk, *data, *faces, d, i as nat),
        decreases 32768 - i,
    {
        let x = i / 1024;
        let y = (i / 32) % 32;
        let z = i % 32;
        assert(x < 32) by (nonlinear_arith)
            requires
                x == i / 1024,
                i < 32768,
        ;
        let voxel = data[x][y][z];
        if voxel.is_physically_solid() {
            let pos = IVec3 {
                x: world(chunk.pos.x, x, chunk.lod, size),
                y: world(chunk.pos.y, y, chunk.lod, size),
                z: world(chunk.pos.z, z, chunk.lod, size),
            };
            let ghost m0 = mesh;
            let mut d: u8 = 0;
            while d < 6
                invariant
                    d <= 6,
                    x < 32 && y < 32 && z < 32,
                    x == i / 1024 && y == (i / 32) % 32 && z == i % 32,
                    voxel == data[x as int][y as int][z as int],
                    voxel.solid(),
                    pos == instance_at(chunk, *data, x as int, y as int, z as int).pos,
                    forall|e: int|
                        0 <= e < 6 ==> #[trigger] mesh.bucket(e) == if e < d && emits(
                            *data,
                            *faces,
                            e,
                            x as int,
                            y as int,
                            z as int,
                        ) {
                            m0.bucket(e).push(instance_at(chunk, *data, x as int, y as int, z as int))
                        } else {
                            m0.bucket(e)
                        },
                decreases 6 - d,
            {
                let set = if d < 2 {
                    mask_has(faces[d as usize][y][z], x)
                } else if d < 4 {
                    mask_has(faces[d as usize][z][x], y)
                } else {
                    mask_has(faces[d as usize][x][y], z)
                };
                if set {
                    let kind = instance_kind(chunk.lod, voxel.texture_id(d));
                    mesh.push_face(d, Instance { pos, kind });
                }
                d = d + 1;
            }
        }
        i = i + 1;
    }
    mesh
}

/// The voxel at `(x, y, z)` of chunk `id` is stored in the level and solid.
pub open spec fn stored_solid(level: Level, id: ChunkID, x: int, y: int, z: int) -> bool {
    match level.get_spec(id) {
        Some(c) => match c.voxel {
            Some(v) => v[x][y][z].solid(),
            None => false,
        },
        None => false,
    }
}

/// The same, in chunk `id`'s neighbor on side `d`.
pub open spec fn stored_solid_beside(level: Level, id: ChunkID, d: u8, x: int, y: int, z: int) -> bool {
    match neighbor_spec(id, d) {
        Some(n) => stored_solid(level, n, x, y, z),
        None => false,
    }
}

/// The voxel coordinates of index `k` of run `[a][b]` along `axis`.
pub open spec fn run_coords(axis: int, a: int, b: int, k: int) -> (int, int, int) {
    if axis == 0 {
        (k, a, b)
    } else if axis == 1 {
        (b, k, a)
    } else {
        (a, b, k)
    }
}

/// Face `d` of voxel `k` of run `[a][b]` of chunk `id` is exposed, judged voxel by
/// voxel on what the level stores: the voxel is solid and the one beside it on that
/// side is not. A neighbor chunk that is absent or has no voxels counts as air.
pub open spec fn level_exposed(level: Level, id: ChunkID, d: int, a: int, b: int, k: int) -> bool {
    let axis = d / 2;
    let c = run_coords(axis, a, b, k);
    let beside = if d % 2 == 0 {
        if k > 0 {
            let p = run_coords(axis, a, b, k - 1);
            stored_solid(level, id, p.0, p.1, p.2)
        } else {
            let p = run_coords(axis, a, b, 31);
            stored_solid_beside(level, id, d as u8, p.0, p.1, p.2)
        }
    } else {
        if k < 31 {
            let p = run_coords(axis, a, b, k + 1);
            stored_solid(level, id, p.0, p.1, p.2)
        } else {
            let p = run_coords(axis, a, b, 0);
            stored_solid_beside(level, id, d as u8, p.0, p.1, p.2)
        }
    };
    stored_solid(level, id, c.0, c.1, c.2) && !beside
}

/// The voxels of chunk `id`, or air where the level holds none.
pub fn get_data(level: &Level, id: ChunkID) -> (r: VoxelData3D)
    ensures
        forall|x: int, y: int, z: int|
            0 <= x < 32 && 0 <= y < 32 && 0 <= z < 32 ==> (#[trigger] r[x][y][z].solid() <==> stored_solid(*level, id, x, y, z)),
{
    match level.get(id) {
        Some(c) => match c.voxel {
            Some(v) => v,
            None => fill(VoxelType::Air),
        },
        None => fill(VoxelType::Air),
    }
}

/// The voxels of chunk `id`'s neighbor on side `d`, or air.
fn get_data_beside(level: &Level, id: ChunkID, d: u8) -> (r: VoxelData3D)
    requires
        d < 6,
    ensures
        forall|x: int, y: int, z: int|
            0 <= x < 32 && 0 <= y < 32 && 0 <= z < 32 ==> (#[trigger] r[x][y][z].solid() <==> stored_solid_beside(*level, id, d, x, y, z)),
{
    match neighbor(id, d) {
        Some(n) => get_data(level, n),
        None => fill(VoxelType::Air),
    }
}

/// The six visibility masks of chunk `id`, from the voxels the level holds for it
/// and for its six neighbors at the same level of detail.
pub fn map_visible(level: &Level, chunk: ChunkID) -> (r: [BitMap3D; 6])
    ensures
        forall|d: int, a: int, b: int, k: int|
            0 <= d < 6 && 0 <= a < 32 && 0 <= b < 32 && 0 <= k < 32 ==> (#[trigger] bit(r[d][a][b], k)
                <==> level_exposed(*level, chunk, d, a, b, k)),
{
    let center = get_data(level, chunk);
    let around = [
        get_data_beside(level, chunk, 0),
        get_data_beside(level, chunk, 1),
        get_data_beside(level, chunk, 2),
        get_data_beside(level, chunk, 3),
        get_data_beside(level, chunk, 4),
        get_data_beside(level, chunk, 5),
    ];
    let r = visibility_masks(&center, &around);
    assert forall|d: int, a: int, b: int, k: int|
        0 <= d < 6 && 0 <= a < 32 && 0 <= b < 32 && 0 <= k < 32 implies (#[trigger] bit(r[d][a][b], k)
            <==> level_exposed(*level, chunk, d, a, b, k)) by {
        let axis = d / 2;
        let c = run_coords(axis, a, b, k);
        assert(voxel_on(center, axis, a, b, k) == center[c.0][c.1][c.2]);
        if k > 0 {
            let p = run_coords(axis, a, b, k - 1);
            assert(voxel_on(center, axis, a, b, k - 1) == center[p.0][p.1][p.2]);
        }
        if k < 31 {
            let p = run_coords(axis, a, b, k + 1);
            assert(voxel_on(center, axis, a, b, k + 1) == center[p.0][p.1][p.2]);
        }
        let p0 = run_coords(axis, a, b, 0);
        let p31 = run_coords(axis, a, b, 31);
        assert(voxel_on(around[d], axis, a, b, 0) == around[d][p0.0][p0.1][p0.2]);
        assert(voxel_on(around[d], axis, a, b, 31) == around[d][p31.0][p31.1][p31.2]);
    }
    r
}

fn coord_in_range(p: i32, size: i32, lod: u16) -> (r: bool)
    requires
        lod <= MAX_LOD,
        size == pow2(lod as nat),
        1 <= size <= 256,
    ensures
        r == coord_fits(p, lod),
{
    let a = p as i64 * 32;
    let s = size as i64;
    assert(-0x2000_0000_0000 <= a * s <= 0x2000_0000_0000 && -0x2000_0000_0000 <= (a + 32) * s
        <= 0x2000_0000_0000) by (nonlinear_arith)
        requires
            1 <= s <= 256,
            -0x10_0000_0000 <= a <= 0x10_0000_0000,
    ;
    let lo = a * s;
    let hi = (a + 32) * s;
    i32::MIN as i64 <= lo && hi <= i32::MAX as i64 + 1
}

/// Whether the chunk's world cell has 32-bit coordinates, so that it can be meshed.
pub fn cell_in_range(c: ChunkID) -> (r: bool)
    ensures
        r == cell_fits(c),
{
    if c.lod > MAX_LOD {
        return false;
    }
    let s = c.size();
    coord_in_range(c.pos.x, s, c.lod) && coord_in_range(c.pos.y, s, c.lod) && coord_in_range(c.pos.z, s, c.lod)
}

} // verus!
