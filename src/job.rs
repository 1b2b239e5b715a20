use vstd::prelude::*;

use crate::chunk::{Chunk, Level};
use crate::chunk_id::{lemma_key_injective, ChunkID};
use crate::frustum::{neighbor, neighbor_spec};
use crate::mesh::Mesh;
use crate::meshing::{bucket_upto, cell_fits, generate_mesh, level_exposed, map_visible, stored_solid};
use crate::occlusion::{bit, BitMap3D};
use crate::state::DataState;
use crate::voxel::VoxelData3D;

verus! {

/// The world generator the streaming core consumes: a pure function from a chunk
/// to its voxels.
pub trait Generator {
    fn generate(&self, chunk_id: ChunkID) -> VoxelData3D;

    fn seed(&self) -> u64;
}

/// Why a job stopped early. Either way another actor handles the chunk, and the
/// job is dropped.
#[derive(Debug, Clone, Copy, PartialEq, Eq, Structural)]
pub enum JobError {
    /// The chunk exists already, or the stage is not dirty.
    Collision,
    /// The level holds no such chunk.
    Missing,
}

/// A unit of work for one chunk.
#[derive(Debug, Clone, Copy, PartialEq, Eq, Structural)]
pub enum Job {
    GenerateChunk { chunk_id: ChunkID },
    GenerateMesh { chunk_id: ChunkID },
    GenerateChunkAndMesh { chunk_id: ChunkID },
}

/// `m` holds the masks of chunk `id` as `level` gives them.
pub open spec fn masks_of(level: Level, id: ChunkID, m: [BitMap3D; 6]) -> bool {
    forall|d: int, a: int, b: int, k: int|
        0 <= d < 6 && 0 <= a < 32 && 0 <= b < 32 && 0 <= k < 32 ==> (#[trigger] bit(m[d][a][b], k)
            <==> level_exposed(level, id, d, a, b, k))
}

/// `mesh` is the mesh of chunk `id` made from its voxels and masks `m`; empty
/// without voxels.
pub open spec fn mesh_of(id: ChunkID, voxel: Option<VoxelData3D>, m: [BitMap3D; 6], mesh: Mesh) -> bool {
    forall|d: int|
        0 <= d < 6 ==> #[trigger] mesh.bucket(d) == match voxel {
            Some(v) => bucket_upto(id, v, m, d, 32768),
            None => Seq::empty(),
        }
}

/// Only chunk `id` may differ between the two levels.
pub open spec fn others_unchanged(before: Level, after: Level, id: ChunkID) -> bool {
    forall|o: ChunkID| o != id ==> #[trigger] after.get_spec(o) == before.get_spec(o)
}

/// Chunk `id` was just reserved: voxel stage generating, later stages done, no data.
pub open spec fn fresh(level: Level, id: ChunkID) -> bool {
    &&& level.get_spec(id) is Some
    &&& level.get_spec(id)->Some_0.voxel_state == DataState::Generating
    &&& level.get_spec(id)->Some_0.voxel is None
    &&& level.get_spec(id)->Some_0.occl_state == DataState::Done
    &&& level.get_spec(id)->Some_0.mesh_state == DataState::Done
}

/// Chunk `id` holds voxels, its voxel stage is done and its later stages stand at
/// `occl` and `mesh`.
pub open spec fn generated(level: Level, id: ChunkID, occl: DataState, mesh: DataState) -> bool {
    &&& level.get_spec(id) is Some
    &&& level.get_spec(id)->Some_0.voxel is Some
    &&& level.get_spec(id)->Some_0.voxel_state == DataState::Done
    &&& level.get_spec(id)->Some_0.occl_state == occl
    &&& level.get_spec(id)->Some_0.mesh_state == mesh
}

/// `after` is `before` with `voxel` written into chunk `id`.
pub open spec fn voxel_stored(before: Level, after: Level, id: ChunkID, voxel: VoxelData3D) -> bool {
    let c0 = before.get_spec(id)->Some_0;
    let c = after.get_spec(id)->Some_0;
    &&& before.get_spec(id) is Some
    &&& after.get_spec(id) is Some
    &&& c.voxel == Some(voxel)
    &&& c.voxel_state == c0.voxel_state.finish_spec()
    &&& c.occl_state == c0.occl_state.mark_dirty_spec()
    &&& c.mesh_state == c0.mesh_state.mark_dirty_spec()
    &&& c.occl == c0.occl
    &&& c.mesh == c0.mesh
}

/// The occlusion stage of chunk `id` ran from `before` to `after`: its masks are
/// those of `before`, the stage is done, and the mesh stage ran (`Ok`) exactly when
/// it was dirty after the masks were written.
pub open spec fn occlusion_ran(before: Level, after: Level, id: ChunkID, r: Result<(), JobError>) -> bool {
    let c0 = before.get_spec(id)->Some_0;
    let c = after.get_spec(id)->Some_0;
    let m = c.occl->Some_0;
    &&& after.get_spec(id) is Some
    &&& c.voxel == c0.voxel
    &&& c.voxel_state == c0.voxel_state
    &&& c.occl_state == DataState::Done
    &&& c.occl is Some
    &&& masks_of(before, id, m)
    &&& masks_of(after, id, m)
    &&& (r is Ok <==> c0.mesh_state.mark_dirty_spec() == DataState::Dirty)
    &&& r is Err ==> r == Err::<(), JobError>(JobError::Collision) && c.mesh == c0.mesh
        && c.mesh_state == c0.mesh_state.mark_dirty_spec()
    &&& r is Ok ==> c.mesh_state == DataState::Done && mesh_of(id, c.voxel, m, c.mesh)
}

/// `o` is one of the six neighbors of `id` at its level of detail.
pub open spec fn beside(id: ChunkID, o: ChunkID) -> bool {
    exists|d: u8| d < 6 && neighbor_spec(id, d) == Some(o)
}

/// The chunk with its occlusion stage marked dirty.
pub open spec fn occl_marked(c: Option<Chunk>) -> Option<Chunk> {
    match c {
        Some(c) => Some(Chunk { occl_state: c.occl_state.mark_dirty_spec(), ..c }),
        None => None,
    }
}

/// Between the two levels, each stored neighbor of `id` had its occlusion stage
/// marked dirty, and every other chunk but `id` stayed as it was.
pub open spec fn neighbors_invalidated(before: Level, after: Level, id: ChunkID) -> bool {
    forall|o: ChunkID|
        o != id ==> #[trigger] after.get_spec(o) == if beside(id, o) {
            occl_marked(before.get_spec(o))
        } else {
            before.get_spec(o)
        }
}

/// Marks the occlusion stage of chunk `o` dirty, if the level holds it.
fn mark_occl_dirty(level: &mut Level, o: ChunkID)
    ensures
        final(level).get_spec(o) == occl_marked(old(level).get_spec(o)),
        others_unchanged(*old(level), *final(level), o),
{
    match level.take(o) {
        None => {
            assert(old(level).chunks@.remove(crate::chunk_id::key_of(o)) =~= old(level).chunks@);
        },
        Some(mut c) => {
            c.occl_state = c.occl_state.mark_dirty();
            level.put(o, c);
            proof {
                assert forall|x: ChunkID| x != o implies #[trigger] level.get_spec(x) == old(level).get_spec(x) by {
                    lemma_key_injective(x, o);
                }
            }
        },
    }
}

/// The voxels of chunk `id` changed: each stored neighbor must rebuild its masks,
/// since its boundary faces were judged against this chunk.
fn invalidate_neighbors(level: &mut Level, id: ChunkID)
    ensures
        neighbors_invalidated(*old(level), *final(level), id),
        final(level).get_spec(id) == old(level).get_spec(id),
{
    let ghost start = *level;
    let mut d: u8 = 0;
    while d < 6
        invariant
            d <= 6,
            level.get_spec(id) == start.get_spec(id),
            forall|o: ChunkID|
                o != id ==> #[trigger] level.get_spec(o) == if exists|e: u8| e < d && neighbor_spec(id, e) == Some(o) {
                    occl_marked(start.get_spec(o))
                } else {
                    start.get_spec(o)
                },
        decreases 6 - d,
    {
        let ghost mid = *level;
        if let Some(n) = neighbor(id, d) {
            mark_occl_dirty(level, n);
            assert forall|o: ChunkID| o != id implies #[trigger] level.get_spec(o) == if exists|e: u8|
                e < d + 1 && neighbor_spec(id, e) == Some(o) {
                occl_marked(start.get_spec(o))
            } else {
                start.get_spec(o)
            } by {
                if o == n {
                    assert(neighbor_spec(id, d) == Some(o));
                } else {
                    if exists|e: u8| e < d + 1 && neighbor_spec(id, e) == Some(o) {
                        let e = choose|e: u8| e < d + 1 && neighbor_spec(id, e) == Some(o);
                        assert(e < d);
                    }
                }
            }
        } else {
            assert forall|o: ChunkID| o != id implies #[trigger] level.get_spec(o) == if exists|e: u8|
                e < d + 1 && neighbor_spec(id, e) == Some(o) {
                occl_marked(start.get_spec(o))
            } else {
                start.get_spec(o)
            } by {
                if exists|e: u8| e < d + 1 && neighbor_spec(id, e) == Some(o) {
                    let e = choose|e: u8| e < d + 1 && neighbor_spec(id, e) == Some(o);
                    assert(e < d);
                }
            }
        }
        d = d + 1;
    }
}

/// Reserves chunk `id` for generation: a new chunk whose voxel stage is generating.
pub fn start_chunk(level: &mut Level, chunk_id: ChunkID) -> (r: Result<(), JobError>)
    ensures
        r is Err <==> old(level).get_spec(chunk_id) is Some,
        r is Err ==> r == Err::<(), JobError>(JobError::Collision) && final(level).chunks@ == old(level).chunks@,
        r is Ok ==> fresh(*final(level), chunk_id),
        others_unchanged(*old(level), *final(level), chunk_id),
{
    match level.insert(chunk_id, Chunk::new(DataState::Generating)) {
        Ok(()) => Ok(()),
        Err(()) => Err(JobError::Collision),
    }
}

/// Stores generated voxels into chunk `id` (see `Chunk::write_voxel`) and marks
/// the masks of its stored neighbors dirty.
pub fn store_voxel(level: &mut Level, chunk_id: ChunkID, voxel: VoxelData3D) -> (r: Result<(), JobError>)
    ensures
        r is Err <==> old(level).get_spec(chunk_id) is None,
        r is Err ==> r == Err::<(), JobError>(JobError::Missing) && final(level).chunks@ == old(level).chunks@,
        r is Ok ==> voxel_stored(*old(level), *final(level), chunk_id, voxel),
        r is Ok ==> neighbors_invalidated(*old(level), *final(level), chunk_id),
{
    match level.take(chunk_id) {
        None => Err(JobError::Missing),
        Some(mut c) => {
            c.write_voxel(voxel);
            level.put(chunk_id, c);
            proof {
                assert forall|o: ChunkID| o != chunk_id implies #[trigger] level.get_spec(o)
                    == old(level).get_spec(o) by {
                    lemma_key_injective(o, chunk_id);
                }
            }
            invalidate_neighbors(level, chunk_id);
            Ok(())
        },
    }
}

/// The voxels the level holds for chunk `o`, if any.
pub open spec fn voxels_of(level: Level, o: ChunkID) -> Option<VoxelData3D> {
    match level.get_spec(o) {
        Some(c) => c.voxel,
        None => None,
    }
}

/// The two levels hold the same voxels for every chunk.
pub open spec fn same_voxels(l1: Level, l2: Level) -> bool {
    forall|o: ChunkID| #[trigger] voxels_of(l1, o) == voxels_of(l2, o)
}

/// Masks depend on voxels alone: levels with the same voxels give the same masks.
pub proof fn lemma_masks_follow_voxels(l1: Level, l2: Level, id: ChunkID, m: [BitMap3D; 6])
    requires
        same_voxels(l1, l2),
        masks_of(l1, id, m),
    ensures
        masks_of(l2, id, m),
{
    assert forall|o: ChunkID, x: int, y: int, z: int|
        #[trigger] stored_solid(l1, o, x, y, z) == stored_solid(l2, o, x, y, z) by {
        assert(voxels_of(l1, o) == voxels_of(l2, o));
    }
}

/// Chunk `id` holds masks that match the voxels of `level`, and the mesh made from
/// its voxels and those masks.
pub open spec fn meshed(level: Level, id: ChunkID) -> bool {
    let c = level.get_spec(id)->Some_0;
    &&& level.get_spec(id) is Some
    &&& c.occl is Some
    &&& masks_of(level, id, c.occl->Some_0)
    &&& mesh_of(id, c.voxel, c.occl->Some_0, c.mesh)
}

/// Starts the occlusion stage of chunk `id`: only a dirty stage can start.
pub fn begin_occlusion(level: &mut Level, chunk_id: ChunkID) -> (r: Result<(), JobError>)
    ensures
        old(level).get_spec(chunk_id) is None ==> r == Err::<(), JobError>(JobError::Missing),
        old(level).get_spec(chunk_id) is Some && old(level).get_spec(chunk_id)->Some_0.occl_state
            != DataState::Dirty ==> r == Err::<(), JobError>(JobError::Collision),
        r is Err ==> final(level).chunks@ == old(level).chunks@,
        r is Ok <==> old(level).get_spec(chunk_id) is Some && old(level).get_spec(chunk_id)->Some_0.occl_state
            == DataState::Dirty,
        r is Ok ==> final(level).get_spec(chunk_id) == Some(
            Chunk { occl_state: DataState::Generating, ..old(level).get_spec(chunk_id)->Some_0 },
        ),
        others_unchanged(*old(level), *final(level), chunk_id),
{
    let ready = match level.get(chunk_id) {
        None => {
            return Err(JobError::Missing);
        },
        Some(c) => c.occl_state.try_start_generating(),
    };
    if ready.is_err() {
        return Err(JobError::Collision);
    }
    let mut c = match level.take(chunk_id) {
        Some(c) => c,
        None => {
            return Err(JobError::Missing);
        },
    };
    c.occl_state = DataState::Generating;
    level.put(chunk_id, c);
    proof {
        assert forall|o: ChunkID| o != chunk_id implies #[trigger] level.get_spec(o) == old(level).get_spec(o) by {
            lemma_key_injective(o, chunk_id);
        }
    }
    Ok(())
}

/// The masks of chunk `id` and the mesh made from them, from the level as it
/// stands; the mesh is empty when the chunk holds no voxels. Reads only.
pub fn compute_meshing(level: &Level, chunk_id: ChunkID) -> (r: ([BitMap3D; 6], Mesh))
    requires
        cell_fits(chunk_id),
    ensures
        masks_of(*level, chunk_id, r.0),
        mesh_of(chunk_id, voxels_of(*level, chunk_id), r.0, r.1),
{
    let masks = map_visible(level, chunk_id);
    let mesh = match level.get(chunk_id) {
        Some(c) => match &c.voxel {
            Some(v) => generate_mesh(chunk_id, v, &masks),
            None => Mesh::new(),
        },
        None => Mesh::new(),
    };
    (masks, mesh)
}

/// Ends the occlusion stage of chunk `id` with `masks`, then runs the mesh stage
/// with `mesh` if it can start (it is dirty once the masks are written).
pub fn finish_occlusion(level: &mut Level, chunk_id: ChunkID, masks: [BitMap3D; 6], mesh: Mesh) -> (r: Result<(), JobError>)
    ensures
        old(level).get_spec(chunk_id) is None ==> r == Err::<(), JobError>(JobError::Missing)
            && final(level).chunks@ == old(level).chunks@,
        old(level).get_spec(chunk_id) is Some ==> {
            let c0 = old(level).get_spec(chunk_id)->Some_0;
            let c = final(level).get_spec(chunk_id)->Some_0;
            &&& final(level).get_spec(chunk_id) is Some
            &&& c.voxel == c0.voxel && c.voxel_state == c0.voxel_state
            &&& c.occl == Some(masks) && c.occl_state == c0.occl_state.finish_spec()
            &&& (r is Ok <==> c0.mesh_state.mark_dirty_spec() == DataState::Dirty)
            &&& r is Err ==> r == Err::<(), JobError>(JobError::Collision) && c.mesh == c0.mesh
                && c.mesh_state == c0.mesh_state.mark_dirty_spec()
            &&& r is Ok ==> c.mesh == mesh && c.mesh_state == DataState::Done
        },
        others_unchanged(*old(level), *final(level), chunk_id),
{
    let mut c = match level.take(chunk_id) {
        Some(c) => c,
        None => {
            return Err(JobError::Missing);
        },
    };
    c.write_occl(masks);
    let r = match c.mesh_state.try_start_generating() {
        Err(()) => Err(JobError::Collision),
        Ok(s) => {
            c.mesh_state = s;
            c.write_mesh(mesh);
            Ok(())
        },
    };
    level.put(chunk_id, c);
    proof {
        assert forall|o: ChunkID| o != chunk_id implies #[trigger] level.get_spec(o) == old(level).get_spec(o) by {
            lemma_key_injective(o, chunk_id);
        }
    }
    r
}

/// What `build_mesh` does to chunk `id`, from `before` to `after`.
pub open spec fn build_mesh_post(before: Level, after: Level, id: ChunkID, r: Result<(), JobError>) -> bool {
    &&& before.get_spec(id) is None ==> r == Err::<(), JobError>(JobError::Missing) && after.chunks@ == before.chunks@
    &&& before.get_spec(id) is Some && before.get_spec(id)->Some_0.occl_state != DataState::Dirty ==> r
        == Err::<(), JobError>(JobError::Collision) && after.chunks@ == before.chunks@
    &&& before.get_spec(id) is Some && before.get_spec(id)->Some_0.occl_state == DataState::Dirty
        ==> occlusion_ran(before, after, id, r)
    &&& others_unchanged(before, after, id)
}

/// The occlusion and mesh stages of chunk `id`. The occlusion stage runs only when
/// it is dirty; its masks come from the level as it stands. The mesh stage runs
/// only when, after that, it is dirty.
pub fn build_mesh(level: &mut Level, chunk_id: ChunkID) -> (r: Result<(), JobError>)
    requires
        cell_fits(chunk_id),
    ensures
        build_mesh_post(*old(level), *final(level), chunk_id, r),
{
    let ghost before = *level;
    match begin_occlusion(level, chunk_id) {
        Err(e) => {
            assert(level.chunks@ =~= before.chunks@);
            return Err(e);
        },
        Ok(()) => {},
    }
    let ghost started = *level;
    let (masks, mesh) = compute_meshing(level, chunk_id);
    let r = finish_occlusion(level, chunk_id, masks, mesh);
    proof {
        assert(same_voxels(*old(level), started)) by {
            assert forall|o: ChunkID| #[trigger] voxels_of(*old(level), o) == voxels_of(started, o) by {}
        }
        lemma_masks_follow_voxels(started, *old(level), chunk_id, masks);
        assert(same_voxels(started, *level)) by {
            assert forall|o: ChunkID| #[trigger] voxels_of(started, o) == voxels_of(*level, o) by {}
        }
        lemma_masks_follow_voxels(started, *level, chunk_id, masks);
    }
    r
}

/// What `generate_chunk` does, from `before` to `after`.
pub open spec fn generate_chunk_post(before: Level, after: Level, id: ChunkID, r: Result<(), JobError>) -> bool {
    &&& (before.get_spec(id) is Some <==> r is Err)
    &&& r is Err ==> r == Err::<(), JobError>(JobError::Collision) && after.chunks@ == before.chunks@
    &&& r is Ok ==> generated(after, id, DataState::Dirty, DataState::Dirty)
    &&& r is Ok ==> neighbors_invalidated(before, after, id)
}

/// Generates chunk `id`: reserves it, asks the generator and stores the voxels.
pub fn generate_chunk<G: Generator>(level: &mut Level, generator: &G, chunk_id: ChunkID) -> (r: Result<(), JobError>)
    ensures
        generate_chunk_post(*old(level), *final(level), chunk_id, r),
{
    start_chunk(level, chunk_id)?;
    let voxel = generator.generate(chunk_id);
    store_voxel(level, chunk_id, voxel)
}

/// What `generate_chunk_and_mesh` does, from `before` to `after`.
pub open spec fn generate_and_mesh_post(before: Level, after: Level, id: ChunkID, r: Result<(), JobError>) -> bool {
    &&& before.get_spec(id) is Some ==> r == Err::<(), JobError>(JobError::Collision) && after.chunks@ == before.chunks@
    &&& before.get_spec(id) is None ==> r is Ok && generated(after, id, DataState::Done, DataState::Done)
        && meshed(after, id) && neighbors_invalidated(before, after, id)
}

/// Generates chunk `id` and, in the same job, its masks and its mesh. When the
/// chunk exists already the job stops with a collision and changes nothing.
pub fn generate_chunk_and_mesh<G: Generator>(level: &mut Level, generator: &G, chunk_id: ChunkID) -> (r: Result<(), JobError>)
    requires
        cell_fits(chunk_id),
    ensures
        generate_and_mesh_post(*old(level), *final(level), chunk_id, r),
{
    generate_chunk(level, generator, chunk_id)?;
    let ghost stored = *level;
    let r = build_mesh(level, chunk_id);
    proof {
        let c = level.get_spec(chunk_id)->Some_0;
        assert(same_voxels(stored, *level)) by {
            assert forall|o: ChunkID| #[trigger] voxels_of(stored, o) == voxels_of(*level, o) by {
                if o != chunk_id {
                    assert(level.get_spec(o) == stored.get_spec(o));
                }
            }
        }
        lemma_masks_follow_voxels(stored, *level, chunk_id, c.occl->Some_0);
    }
    r
}

/// What running `job` does, from `before` to `after`.
pub open spec fn job_post(job: Job, before: Level, after: Level, r: Result<(), JobError>) -> bool {
    match job {
        Job::GenerateChunk { chunk_id } => generate_chunk_post(before, after, chunk_id, r),
        Job::GenerateMesh { chunk_id } => build_mesh_post(before, after, chunk_id, r),
        Job::GenerateChunkAndMesh { chunk_id } => generate_and_mesh_post(before, after, chunk_id, r),
    }
}

/// The job builds masks and a mesh, so its chunk must fit the world's coordinates.
pub open spec fn job_fits(job: Job) -> bool {
    match job {
        Job::GenerateChunk { .. } => true,
        Job::GenerateMesh { chunk_id } => cell_fits(chunk_id),
        Job::GenerateChunkAndMesh { chunk_id } => cell_fits(chunk_id),
    }
}

impl Job {
    pub open spec fn chunk_spec(self) -> ChunkID {
        match self {
            Job::GenerateChunk { chunk_id } => chunk_id,
            Job::GenerateMesh { chunk_id } => chunk_id,
            Job::GenerateChunkAndMesh { chunk_id } => chunk_id,
        }
    }

    /// The chunk the job works on.
    pub fn chunk_id(&self) -> (r: ChunkID)
        ensures
            r == self.chunk_spec(),
    {
        match self {
            Job::GenerateChunk { chunk_id } => *chunk_id,
            Job::GenerateMesh { chunk_id } => *chunk_id,
            Job::GenerateChunkAndMesh { chunk_id } => *chunk_id,
        }
    }

    /// Runs the job on `level`; collisions and missing chunks end it early.
    pub fn run<G: Generator>(self, level: &mut Level, generator: &G) -> (r: Result<(), JobError>)
        requires
            job_fits(self),
        ensures
            job_post(self, *old(level), *final(level), r),
    {
        match self {
            Job::GenerateChunk { chunk_id } => generate_chunk(level, generator, chunk_id),
            Job::GenerateMesh { chunk_id } => build_mesh(level, chunk_id),
            Job::GenerateChunkAndMesh { chunk_id } => generate_chunk_and_mesh(level, generator, chunk_id),
        }
    }
}

} // verus!
