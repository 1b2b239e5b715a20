use voxel_stream::chunk::Level;
use voxel_stream::chunk_id::{ChunkID, IVec3};
use voxel_stream::job::{start_chunk, store_voxel};
use voxel_stream::mesh::{Instance, Mesh};
use voxel_stream::meshing::{generate_mesh, get_data, map_visible};
use voxel_stream::occlusion::{solid_map, visibility_masks, BitMap3D};
use voxel_stream::voxel::{fill, VoxelData3D, VoxelType};

fn id(lod: u16, x: i32, y: i32, z: i32) -> ChunkID {
    ChunkID::new(lod, IVec3::new(x, y, z))
}

fn air() -> VoxelData3D {
    fill(VoxelType::Air)
}

fn masks_alone(data: &VoxelData3D) -> [BitMap3D; 6] {
    let around = [air(), air(), air(), air(), air(), air()];
    visibility_masks(data, &around)
}

fn bucket(m: &Mesh, d: usize) -> &Vec<Instance> {
    match d {
        0 => &m.nx,
        1 => &m.px,
        2 => &m.ny,
        3 => &m.py,
        4 => &m.nz,
        _ => &m.pz,
    }
}

#[test]
fn solid_maps_pack_along_each_axis() {
    let mut data = air();
    data[5][1][2] = VoxelType::Stone;
    let x = solid_map(&data, 0);
    let y = solid_map(&data, 1);
    let z = solid_map(&data, 2);
    assert_eq!(x[1][2], 0x8000_0000 >> 5);
    assert_eq!(y[2][5], 0x8000_0000 >> 1);
    assert_eq!(z[5][1], 0x8000_0000 >> 2);
    assert_eq!(x[0][0], 0);
}

#[test]
fn single_voxel_shows_six_faces() {
    let mut data = air();
    data[5][0][0] = VoxelType::Stone;
    let masks = masks_alone(&data);
    let mesh = generate_mesh(id(0, 0, 0, 0), &data, &masks);
    assert_eq!(mesh.len(), 6);
    for d in 0..6 {
        let b = bucket(&mesh, d);
        assert_eq!(b.len(), 1);
        assert_eq!(b[0].pos, IVec3::new(5, 0, 0));
        assert_eq!(b[0].kind & 0xffff, VoxelType::Stone.texture_id(d as u8) as u32);
        assert_eq!(b[0].kind >> 16, 0);
    }
}

#[test]
fn adjacent_voxels_hide_their_shared_face() {
    let mut data = air();
    data[5][0][0] = VoxelType::Stone;
    data[6][0][0] = VoxelType::Dirt;
    let masks = masks_alone(&data);
    let mesh = generate_mesh(id(0, 0, 0, 0), &data, &masks);
    assert_eq!(mesh.len(), 10);
    assert!(!mesh.px.iter().any(|i| i.pos == IVec3::new(5, 0, 0)));
    assert!(!mesh.nx.iter().any(|i| i.pos == IVec3::new(6, 0, 0)));
    assert_eq!(mesh.nx.len(), 1);
    assert_eq!(mesh.px.len(), 1);
    assert_eq!(mesh.px[0].pos, IVec3::new(6, 0, 0));
    assert_eq!(mesh.px[0].kind, 2);
}

#[test]
fn masks_match_the_naive_neighbor_check() {
    let mut data = air();
    let points = [(0, 0, 0), (1, 0, 0), (31, 4, 4), (7, 7, 7), (7, 8, 7), (7, 7, 8), (15, 31, 0), (3, 3, 31)];
    for (x, y, z) in points {
        data[x][y][z] = VoxelType::CrackedStone;
    }
    let mut beyond = air();
    beyond[0][4][4] = VoxelType::Stone; // +x neighbor covers (31, 4, 4)
    let around = [air(), beyond, air(), air(), air(), air()];
    let masks = visibility_masks(&data, &around);
    let solid = |x: i32, y: i32, z: i32| -> bool {
        if (0..32).contains(&x) && (0..32).contains(&y) && (0..32).contains(&z) {
            data[x as usize][y as usize][z as usize] != VoxelType::Air
        } else {
            x == 32 && y == 4 && z == 4
        }
    };
    let dirs = [(-1, 0, 0), (1, 0, 0), (0, -1, 0), (0, 1, 0), (0, 0, -1), (0, 0, 1)];
    for x in 0..32i32 {
        for y in 0..32i32 {
            for z in 0..32i32 {
                for (d, (dx, dy, dz)) in dirs.iter().enumerate() {
                    let (a, b, k) = match d / 2 {
                        0 => (y, z, x),
                        1 => (z, x, y),
                        _ => (x, y, z),
                    };
                    let bit = masks[d][a as usize][b as usize] & (0x8000_0000u32 >> k) != 0;
                    let naive = solid(x, y, z) && !solid(x + dx, y + dy, z + dz);
                    assert_eq!(bit, naive, "voxel {:?} face {}", (x, y, z), d);
                }
            }
        }
    }
}

#[test]
fn mesh_positions_scale_with_lod() {
    let mut data = air();
    data[1][2][3] = VoxelType::Dirt;
    let masks = masks_alone(&data);
    let mesh = generate_mesh(id(2, -1, 0, 1), &data, &masks);
    assert_eq!(mesh.pz[0].pos, IVec3::new((-32 + 1) * 4, 2 * 4, (32 + 3) * 4));
    assert_eq!(mesh.pz[0].kind, (2 << 16) | 2);
}

#[test]
fn level_masks_use_stored_neighbors() {
    let mut level = Level::new();
    let a = id(0, 0, 0, 0);
    let b = id(0, 1, 0, 0);
    let mut left = air();
    left[31][0][0] = VoxelType::Stone;
    let mut right = air();
    right[0][0][0] = VoxelType::Stone;
    start_chunk(&mut level, a).unwrap();
    store_voxel(&mut level, a, left).unwrap();
    let alone = map_visible(&level, a);
    assert_ne!(alone[1][0][0] & 1, 0);
    start_chunk(&mut level, b).unwrap();
    store_voxel(&mut level, b, right).unwrap();
    let joined = map_visible(&level, a);
    assert_eq!(joined[1][0][0] & 1, 0);
    assert_ne!(joined[0][0][0] & 1, 0);
    assert_eq!(get_data(&level, b)[0][0][0], VoxelType::Stone);
    assert_eq!(get_data(&level, id(0, 5, 5, 5))[0][0][0], VoxelType::Air);
}

#[test]
fn append_concatenates_buckets() {
    let mut a = Mesh::new();
    a.add_nx(IVec3::new(1, 2, 3), 4, 1);
    let mut b = Mesh::new();
    b.add_nx(IVec3::new(0, 0, 0), 0, 0);
    b.add_pz(IVec3::new(9, 9, 9), 2, 3);
    b.add_px(IVec3::new(1, 1, 1), 1, 0);
    b.add_ny(IVec3::new(2, 2, 2), 1, 0);
    b.add_py(IVec3::new(3, 3, 3), 1, 0);
    b.add_nz(IVec3::new(4, 4, 4), 1, 0);
    a.append(&b);
    assert_eq!(a.nx.len(), 2);
    assert_eq!(a.nx[0].kind, (1 << 16) | 4);
    assert_eq!(a.nx[1].pos, IVec3::new(0, 0, 0));
    assert_eq!(a.pz[0].kind, (3 << 16) | 2);
    assert_eq!(a.len(), 7);
    let c = Mesh::with_capacity(10);
    assert_eq!(c.len(), 0);
}
