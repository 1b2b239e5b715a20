use voxel_stream::chunk::Level;
use voxel_stream::chunk_id::{chunk_overlaps, ChunkID, IVec3};
use voxel_stream::job::{begin_occlusion, build_mesh, compute_meshing, finish_occlusion, generate_chunk, start_chunk, store_voxel, Generator, Job, JobError};
use voxel_stream::render::select_render_chunks;
use voxel_stream::server::{frame_jobs, get_mesh, rebuild_jobs, solid_at, split_coord, Server};
use voxel_stream::state::DataState;
use voxel_stream::voxel::{fill, VoxelData3D, VoxelType};
use voxel_stream::world_gen::WhiteNoise;

fn id(lod: u16, x: i32, y: i32, z: i32) -> ChunkID {
    ChunkID::new(lod, IVec3::new(x, y, z))
}

struct Flat;

impl Generator for Flat {
    fn generate(&self, chunk_id: ChunkID) -> VoxelData3D {
        let mut data = fill(VoxelType::Air);
        if chunk_id.pos.y < 0 {
            data = fill(VoxelType::Stone);
        } else if chunk_id.pos.y == 0 {
            for x in 0..32 {
                for z in 0..32 {
                    data[x][0][z] = VoxelType::Dirt;
                }
            }
        }
        data
    }

    fn seed(&self) -> u64 {
        1
    }
}

struct Empty;

impl Generator for Empty {
    fn generate(&self, _chunk_id: ChunkID) -> VoxelData3D {
        fill(VoxelType::Air)
    }

    fn seed(&self) -> u64 {
        0
    }
}

fn mark_mesh(level: &mut Level, c: ChunkID, state: DataState) {
    let mut chunk = level.take(c).unwrap();
    chunk.mesh_state = state;
    level.put(c, chunk);
}

#[test]
fn empty_world_gives_empty_mesh() {
    let mut server = Server::new(Empty);
    let desired = vec![id(0, 0, 0, 0)];
    for job in server.jobs_for(&desired) {
        server.run_job(job).unwrap();
    }
    let mesh = server.get_mesh(&desired, IVec3::new(0, 0, 0));
    assert_eq!(mesh.len(), 0);
    assert!(mesh.nx.is_empty() && mesh.pz.is_empty());
}

#[test]
fn resolver_substitutes_a_done_parent() {
    let mut level = Level::new();
    let fine = id(0, 0, 0, 0);
    let coarse = id(1, 0, 0, 0);
    start_chunk(&mut level, fine).unwrap();
    start_chunk(&mut level, coarse).unwrap();
    mark_mesh(&mut level, fine, DataState::Dirty);
    mark_mesh(&mut level, coarse, DataState::Done);
    assert_eq!(select_render_chunks(&level, &vec![fine, coarse]), vec![coarse]);
    assert_eq!(select_render_chunks(&level, &vec![fine]), vec![coarse]);
    mark_mesh(&mut level, fine, DataState::Done);
    assert_eq!(select_render_chunks(&level, &vec![fine, coarse]), vec![fine]);
    assert_eq!(select_render_chunks(&level, &vec![coarse, fine]), vec![fine]);
}

#[test]
fn resolver_drops_chunks_without_any_done_ancestor() {
    let level = Level::new();
    assert!(select_render_chunks(&level, &vec![id(0, 1, 2, 3), id(8, 0, 0, 0)]).is_empty());
}

#[test]
fn render_set_never_overlaps() {
    let mut level = Level::new();
    let ids = [id(0, 0, 0, 0), id(0, 1, 0, 0), id(1, 0, 0, 0), id(2, 0, 0, 0), id(0, 4, 0, 0), id(1, 2, 0, 0), id(0, -1, 0, 0)];
    for (i, c) in ids.iter().enumerate() {
        start_chunk(&mut level, *c).unwrap();
        mark_mesh(&mut level, *c, if i % 3 == 1 { DataState::Dirty } else { DataState::Done });
    }
    let mut desired: Vec<ChunkID> = ids.to_vec();
    desired.reverse();
    desired.extend_from_slice(&ids);
    let r = select_render_chunks(&level, &desired);
    assert!(!r.is_empty());
    for (i, a) in r.iter().enumerate() {
        for b in &r[i + 1..] {
            assert!(!chunk_overlaps(a, *b), "{:?} {:?}", a, b);
        }
    }
}

#[test]
fn racing_jobs_have_one_winner() {
    let mut server = Server::new(Flat);
    let c = id(0, 0, 0, 0);
    let mut wins = 0;
    let mut collisions = 0;
    for _ in 0..8 {
        match server.run_job(Job::GenerateChunkAndMesh { chunk_id: c }) {
            Ok(()) => wins += 1,
            Err(JobError::Collision) => collisions += 1,
            Err(JobError::Missing) => panic!("chunk vanished"),
        }
    }
    assert_eq!((wins, collisions), (1, 7));
    let chunk = server.level.get(c).unwrap();
    assert_eq!(chunk.voxel_state, DataState::Done);
    assert_eq!(chunk.occl_state, DataState::Done);
    assert_eq!(chunk.mesh_state, DataState::Done);
    assert_eq!(chunk.mesh.py.len(), 32 * 32);
}

#[test]
fn mesh_job_needs_a_dirty_stage() {
    let mut level = Level::new();
    let c = id(0, 0, 0, 0);
    assert_eq!(build_mesh(&mut level, c), Err(JobError::Missing));
    start_chunk(&mut level, c).unwrap();
    assert_eq!(build_mesh(&mut level, c), Err(JobError::Collision));
    store_voxel(&mut level, c, fill(VoxelType::Stone)).unwrap();
    assert_eq!(build_mesh(&mut level, c), Ok(()));
    assert_eq!(build_mesh(&mut level, c), Err(JobError::Collision));
    let chunk = level.get(c).unwrap();
    assert_eq!(chunk.mesh.len(), 6 * 32 * 32);
    assert_eq!(store_voxel(&mut level, id(0, 9, 9, 9), fill(VoxelType::Air)), Err(JobError::Missing));
    assert_eq!(generate_chunk(&mut level, &Flat, c), Err(JobError::Collision));
    assert_eq!(generate_chunk(&mut level, &Flat, id(0, 0, -1, 0)), Ok(()));
    assert_eq!(Job::GenerateMesh { chunk_id: c }.chunk_id(), c);
}

#[test]
fn solid_at_reads_level_zero_first() {
    let mut level = Level::new();
    let mut data = fill(VoxelType::Air);
    data[5][6][7] = VoxelType::Stone;
    start_chunk(&mut level, id(0, -1, 0, 0)).unwrap();
    store_voxel(&mut level, id(0, -1, 0, 0), data).unwrap();
    assert!(solid_at(&level, IVec3::new(-32 + 5, 6, 7)));
    assert!(!solid_at(&level, IVec3::new(-32 + 5, 6, 8)));
    assert!(!solid_at(&level, IVec3::new(-1, 0, 0)));
}

#[test]
fn solid_at_falls_back_to_coarser_chunks() {
    let mut level = Level::new();
    let mut data = fill(VoxelType::Air);
    // World voxel (70, 2, 4) lies in level-1 chunk 1, local ((2 % 2) * 16 + 6 / 2, 1, 2).
    data[16 + 3][1][2] = VoxelType::Dirt;
    start_chunk(&mut level, id(1, 1, 0, 0)).unwrap();
    store_voxel(&mut level, id(1, 1, 0, 0), data).unwrap();
    assert!(solid_at(&level, IVec3::new(102, 2, 4)));
    assert!(!solid_at(&level, IVec3::new(100, 2, 4)));
    // Nothing known at any level: conservative answer.
    assert!(solid_at(&level, IVec3::new(-5000, 0, 0)));
    // A reserved chunk without voxels is passed over.
    start_chunk(&mut level, id(0, 3, 0, 0)).unwrap();
    assert!(solid_at(&level, IVec3::new(102, 2, 4)));
}

#[test]
fn split_coord_is_euclidean() {
    assert_eq!(split_coord(-1), (-1, 31));
    assert_eq!(split_coord(-32), (-1, 0));
    assert_eq!(split_coord(33), (1, 1));
}

#[test]
fn same_view_gives_same_mesh() {
    let mut server = Server::new(Flat);
    let desired = vec![id(0, 0, 0, 0), id(0, 1, 0, 0), id(0, 0, -1, 0), id(1, 1, 0, 1)];
    for job in server.jobs_for(&desired) {
        server.run_job(job).unwrap();
    }
    assert!(server.jobs_for(&desired).is_empty());
    let a = server.get_mesh(&desired, IVec3::new(0, 1, 0));
    let b = server.get_mesh(&desired, IVec3::new(0, 1, 0));
    assert_eq!(a.len(), b.len());
    assert!(a.len() > 0);
    assert_eq!(format!("{:?}", a), format!("{:?}", b));
}

#[test]
fn backfaces_are_culled_per_chunk() {
    let mut server = Server::new(Flat);
    let c = id(0, 0, 0, 0);
    server.run_job(Job::GenerateChunkAndMesh { chunk_id: c }).unwrap();
    let above = server.get_mesh(&vec![c], IVec3::new(0, 5, 0));
    assert_eq!(above.py.len(), 32 * 32);
    assert!(above.ny.is_empty());
    let below = server.get_mesh(&vec![c], IVec3::new(0, -3, 0));
    assert!(below.py.is_empty());
    assert_eq!(below.ny.len(), 32 * 32);
}

#[test]
fn no_desired_chunks_no_mesh() {
    let server = Server::new(Flat);
    let mesh = get_mesh(&server.level, &Vec::new(), IVec3::new(0, 0, 0));
    assert_eq!(mesh.len(), 0);
    assert!(server.solid_at(IVec3::new(0, 0, 0)));
}

#[test]
fn white_noise_fills_with_stone_and_dirt() {
    let g = WhiteNoise::new(42);
    assert_eq!(g.seed(), 42);
    let data = g.generate(id(0, 0, 0, 0));
    assert!(data.iter().flatten().flatten().all(|v| *v == VoxelType::Stone || *v == VoxelType::Dirt));
}

#[test]
fn arriving_voxels_mark_neighbor_masks_dirty() {
    let mut server = Server::new(Flat);
    let a = id(0, 0, 0, 0);
    let b = id(0, 1, 0, 0);
    server.run_job(Job::GenerateChunkAndMesh { chunk_id: a }).unwrap();
    let before = server.level.get(a).unwrap().mesh.px.len();
    assert_eq!(server.level.get(a).unwrap().occl_state, DataState::Done);
    server.run_job(Job::GenerateChunk { chunk_id: b }).unwrap();
    assert_eq!(server.level.get(a).unwrap().occl_state, DataState::Dirty);
    assert_eq!(server.level.get(a).unwrap().mesh_state, DataState::Done);
    assert_eq!(frame_jobs(&server.level, &vec![a, b]), vec![Job::GenerateChunkAndMesh { chunk_id: b }]);
    let rebuilds = rebuild_jobs(&server.level, b);
    assert_eq!(rebuilds, vec![Job::GenerateMesh { chunk_id: a }]);
    for job in rebuilds {
        server.run_job(job).unwrap();
    }
    server.run_job(Job::GenerateMesh { chunk_id: b }).unwrap();
    let chunk = server.level.get(a).unwrap();
    assert_eq!(chunk.occl_state, DataState::Done);
    assert_eq!(chunk.mesh_state, DataState::Done);
    // The +x faces on the shared boundary are now hidden by chunk b.
    assert_eq!(before, 32);
    assert_eq!(chunk.mesh.px.len(), 0);
    assert!(server.jobs_for(&vec![a, b]).is_empty());
}

#[test]
fn frame_jobs_are_exactly_the_unready_chunks_in_order() {
    let mut server = Server::new(Flat);
    let a = id(0, 0, 0, 0);
    let b = id(0, 5, 0, 0);
    let c = id(0, 9, 0, 0);
    server.run_job(Job::GenerateChunkAndMesh { chunk_id: b }).unwrap();
    let jobs = server.jobs_for(&vec![c, b, a]);
    assert_eq!(jobs, vec![Job::GenerateChunkAndMesh { chunk_id: c }, Job::GenerateChunkAndMesh { chunk_id: a }]);
    assert!(server.jobs_for(&vec![b]).is_empty());
    assert!(rebuild_jobs(&server.level, b).is_empty());
}

#[test]
fn mesh_job_phases_run_apart() {
    let mut level = Level::new();
    let c = id(0, 0, 0, 0);
    assert_eq!(begin_occlusion(&mut level, c), Err(JobError::Missing));
    generate_chunk(&mut level, &Flat, c).unwrap();
    assert_eq!(begin_occlusion(&mut level, c), Ok(()));
    assert_eq!(level.get(c).unwrap().occl_state, DataState::Generating);
    assert_eq!(begin_occlusion(&mut level, c), Err(JobError::Collision));
    let (masks, mesh) = compute_meshing(&level, c);
    assert_eq!(mesh.py.len(), 32 * 32);
    assert_eq!(finish_occlusion(&mut level, c, masks, mesh), Ok(()));
    let chunk = level.get(c).unwrap();
    assert_eq!(chunk.occl_state, DataState::Done);
    assert_eq!(chunk.mesh_state, DataState::Done);
    assert_eq!(chunk.mesh.ny.len(), 32 * 32);
}
