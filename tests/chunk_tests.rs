use voxel_stream::chunk::{Chunk, Level};
use voxel_stream::chunk_id::{chunk_overlaps, shr_floor, ChunkID, IVec3};
use voxel_stream::state::DataState;
use voxel_stream::voxel::{fill, VoxelType};

fn id(lod: u16, x: i32, y: i32, z: i32) -> ChunkID {
    ChunkID::new(lod, IVec3::new(x, y, z))
}

#[test]
fn parent_halves_rounding_down() {
    let p = id(0, -3, 5, 0).parent();
    assert_eq!(p, id(1, -2, 2, 0));
    let p = id(2, -1, 1, -2).parent();
    assert_eq!(p, id(3, -1, 0, -1));
}

#[test]
fn parent_brackets_the_child() {
    for x in -9..9 {
        for y in [-4, -1, 0, 3] {
            let c = id(0, x, y, 7);
            let p = c.parent();
            for (cp, pp) in [(c.pos.x, p.pos.x), (c.pos.y, p.pos.y), (c.pos.z, p.pos.z)] {
                assert!(pp * 2 <= cp && cp < pp * 2 + 2);
            }
        }
    }
}

#[test]
fn shifts_round_towards_negative_infinity() {
    assert_eq!(shr_floor(-1, 1), -1);
    assert_eq!(shr_floor(-33, 5), -2);
    assert_eq!(shr_floor(31, 5), 0);
    assert_eq!(shr_floor(i32::MIN, 31), -1);
    assert_eq!(shr_floor(i32::MAX, 31), 0);
}

#[test]
fn total_pos_and_size() {
    let c = id(3, -2, 1, 5);
    assert_eq!(c.size(), 8);
    assert_eq!(c.total_pos(), IVec3::new(-16, 8, 40));
    assert_eq!(id(0, 4, 4, 4).size(), 1);
}

#[test]
fn overlaps_by_shifting_the_finer_chunk() {
    assert!(chunk_overlaps(&id(0, 0, 0, 0), id(1, 0, 0, 0)));
    assert!(chunk_overlaps(&id(1, 0, 0, 0), id(0, 1, 1, 1)));
    assert!(!chunk_overlaps(&id(1, 0, 0, 0), id(0, 2, 0, 0)));
    assert!(chunk_overlaps(&id(2, -1, 0, 0), id(0, -1, 3, 0)));
    assert!(!chunk_overlaps(&id(0, 1, 0, 0), id(0, 0, 0, 0)));
    assert!(chunk_overlaps(&id(4, 2, 2, 2), id(4, 2, 2, 2)));
}

#[test]
fn keys_tell_chunks_apart() {
    let a = id(0, -1, 0, 0).key();
    let b = id(0, 0, -1, 0).key();
    let c = id(1, -1, 0, 0).key();
    assert!(a != b && a != c && b != c);
    assert_eq!(id(5, 7, -7, 3).key(), id(5, 7, -7, 3).key());
}

#[test]
fn level_insert_keeps_the_first_chunk() {
    let mut level = Level::new();
    let c = id(0, 1, 2, 3);
    assert!(!level.contains(c));
    assert_eq!(level.insert(c, Chunk::new(DataState::Generating)), Ok(()));
    assert!(level.contains(c));
    assert_eq!(level.insert(c, Chunk::new(DataState::Done)), Err(()));
    assert_eq!(level.get(c).unwrap().voxel_state, DataState::Generating);
    assert!(level.get(id(0, 1, 2, 4)).is_none());
    let taken = level.take(c).unwrap();
    assert!(!level.contains(c));
    assert_eq!(level.insert(c, taken), Ok(()));
    assert_eq!(level.get(c).unwrap().voxel_state, DataState::Generating);
    assert_eq!(level.chunks.len(), 1);
}

#[test]
fn chunk_starts_with_later_stages_done() {
    let c = Chunk::new(DataState::Generating);
    assert_eq!(c.voxel_state, DataState::Generating);
    assert_eq!(c.occl_state, DataState::Done);
    assert_eq!(c.mesh_state, DataState::Done);
    assert!(c.voxel.is_none() && c.occl.is_none());
    assert_eq!(c.mesh.len(), 0);
}

#[test]
fn write_voxel_invalidates_later_stages() {
    let mut c = Chunk::new(DataState::Generating);
    c.write_voxel(fill(VoxelType::Dirt));
    assert_eq!(c.voxel_state, DataState::Done);
    assert_eq!(c.occl_state, DataState::Dirty);
    assert_eq!(c.mesh_state, DataState::Dirty);
    assert_eq!(c.voxel.unwrap()[3][4][5], VoxelType::Dirt);

    let mut busy = Chunk::new(DataState::Generating);
    busy.occl_state = DataState::Generating;
    busy.write_voxel(fill(VoxelType::Air));
    assert_eq!(busy.occl_state, DataState::GeneratingDirty);
    assert_eq!(busy.occl_state.finish_generating(), DataState::Dirty);
}

#[test]
fn write_occl_and_mesh_advance_their_stages() {
    let mut c = Chunk::new(DataState::Done);
    c.occl_state = DataState::Generating;
    c.write_occl([[[0u32; 32]; 32]; 6]);
    assert_eq!(c.occl_state, DataState::Done);
    assert_eq!(c.mesh_state, DataState::Dirty);
    c.mesh_state = DataState::Generating;
    c.write_mesh(voxel_stream::mesh::Mesh::new());
    assert_eq!(c.mesh_state, DataState::Done);
}

#[test]
fn chunk_op_reads_a_stored_chunk() {
    let mut level = Level::new();
    let c = id(1, 0, -1, 0);
    assert_eq!(level.chunk_op(c, |chunk: &Chunk| chunk.voxel_state), None);
    level.insert(c, Chunk::new(DataState::Dirty)).unwrap();
    assert_eq!(level.chunk_op(c, |chunk: &Chunk| chunk.voxel_state), Some(DataState::Dirty));
    assert_eq!(level.chunk_op(c, |chunk: &Chunk| chunk.mesh.len()), Some(0));
}
