use vstd::arithmetic::div_mod::lemma_fundamental_div_mod;
use vstd::arithmetic::power2::{lemma2_to64, pow2};
use vstd::prelude::*;

use crate::chunk::Level;
use crate::chunk_id::{shr_floor, ChunkID, IVec3};
use crate::frustum::{neighbor, neighbor_spec};
use crate::job::{job_fits, job_post, Generator, Job, JobError};
use crate::mesh::{Instance, Mesh};
use crate::render::{lods_bounded, ready, select_render_chunks, select_spec};
use crate::state::DataState;
use crate::MAX_LOD;

verus! {

/// The walk of `solid_at` from level `lod` on: the chunk at `cp` is asked for the
/// voxel at `local`; without voxel data the walk moves to the parent chunk, where
/// the same world voxel sits at half the local coordinate plus 16 for an odd chunk.
/// Past `MAX_LOD` unknown terrain counts as solid.
pub open spec fn walk_spec(level: Level, lod: nat, cp: (int, int, int), local: (int, int, int)) -> bool
    decreases MAX_LOD + 1 - lod,
{
    if lod > MAX_LOD {
        true
    } else {
        let id = ChunkID { lod: lod as u16, pos: IVec3 { x: cp.0 as i32, y: cp.1 as i32, z: cp.2 as i32 } };
        let here = level.get_spec(id);
        if here is Some && here->Some_0.voxel is Some {
            here->Some_0.voxel->Some_0[local.0][local.1][local.2].solid()
        } else {
            walk_spec(
                level,
                lod + 1,
                (cp.0 / 2, cp.1 / 2, cp.2 / 2),
                ((cp.0 % 2) * 16 + local.0 / 2, (cp.1 % 2) * 16 + local.1 / 2, (cp.2 % 2) * 16 + local.2 / 2),
            )
        }
    }
}

/// Whether the world voxel at `pos` is solid, judged from the finest level that
/// holds voxel data for it.
pub open spec fn solid_spec(level: Level, pos: IVec3) -> bool {
    walk_spec(
        level,
        0,
        (pos.x as int / 32, pos.y as int / 32, pos.z as int / 32),
        (pos.x as int % 32, pos.y as int % 32, pos.z as int % 32),
    )
}

/// Dividing by `c` and then by `d` is dividing by `c * d`, rounding down.
proof fn lemma_div_div(x: int, c: int, d: int)
    requires
        0 < c,
        0 < d,
    ensures
        (x / c) / d == x / (c * d),
{
    lemma_fundamental_div_mod(x, c);
    lemma_fundamental_div_mod(x / c, d);
    let q1 = x / c;
    let r1 = x % c;
    let q2 = q1 / d;
    let r2 = q1 % d;
    assert(x == (c * d) * q2 + (c * r2 + r1) && 0 <= c * r2 + r1 < c * d) by (nonlinear_arith)
        requires
            x == c * q1 + r1,
            q1 == d * q2 + r2,
            0 <= r1 < c,
            0 <= r2 < d,
    ;
    vstd::arithmetic::div_mod::lemma_fundamental_div_mod_converse(x, c * d, q2, c * r2 + r1);
}

/// The chunk that `solid_at` asks at level `k` for the world voxel `pos`: its
/// position is `pos >> (5 + k)` on every axis.
pub open spec fn walk_chunk(pos: IVec3, k: nat) -> ChunkID {
    let s = pow2(5 + k) as int;
    ChunkID { lod: k as u16, pos: IVec3 { x: (pos.x as int / s) as i32, y: (pos.y as int / s) as i32, z: (pos.z as int / s) as i32 } }
}

/// The level holds voxels for chunk `id`.
pub open spec fn has_voxels(level: Level, id: ChunkID) -> bool {
    level.get_spec(id) is Some && level.get_spec(id)->Some_0.voxel is Some
}

proof fn lemma_walk_unknown(level: Level, pos: IVec3, k: nat, cp: (int, int, int), local: (int, int, int))
    requires
        k <= MAX_LOD + 1,
        cp == (pos.x as int / pow2(5 + k) as int, pos.y as int / pow2(5 + k) as int, pos.z as int / pow2(5 + k) as int),
        forall|j: nat| k <= j <= MAX_LOD ==> !has_voxels(level, #[trigger] walk_chunk(pos, j)),
    ensures
        walk_spec(level, k, cp, local),
    decreases MAX_LOD + 1 - k,
{
    if k <= MAX_LOD {
        assert(!has_voxels(level, walk_chunk(pos, k)));
        let s = pow2(5 + k) as int;
        vstd::arithmetic::power2::lemma_pow2_pos(5 + k);
        vstd::arithmetic::power2::lemma_pow2_unfold(5 + k + 1);
        assert(pow2(5 + (k + 1)) as int == s * 2);
        lemma_div_div(pos.x as int, s, 2);
        lemma_div_div(pos.y as int, s, 2);
        lemma_div_div(pos.z as int, s, 2);
        lemma_walk_unknown(
            level,
            pos,
            k + 1,
            (cp.0 / 2, cp.1 / 2, cp.2 / 2),
            ((cp.0 % 2) * 16 + local.0 / 2, (cp.1 % 2) * 16 + local.1 / 2, (cp.2 % 2) * 16 + local.2 / 2),
        );
    }
}

/// Unknown terrain is solid: when none of the chunks the walk asks, at levels
/// `0..=MAX_LOD` and positions `pos >> (5 + k)`, holds voxels, the voxel counts as solid.
pub proof fn lemma_unknown_is_solid(level: Level, pos: IVec3)
    requires
        forall|k: nat| k <= MAX_LOD ==> !has_voxels(level, #[trigger] walk_chunk(pos, k)),
    ensures
        solid_spec(level, pos),
{
    lemma2_to64();
    lemma_walk_unknown(
        level,
        pos,
        0,
        (pos.x as int / 32, pos.y as int / 32, pos.z as int / 32),
        (pos.x as int % 32, pos.y as int % 32, pos.z as int % 32),
    );
}

proof fn lemma_walk_fine_only(l1: Level, l2: Level, k: nat, cp: (int, int, int), local: (int, int, int))
    requires
        forall|id: ChunkID| id.lod <= MAX_LOD ==> #[trigger] l1.get_spec(id) == l2.get_spec(id),
    ensures
        walk_spec(l1, k, cp, local) == walk_spec(l2, k, cp, local),
    decreases MAX_LOD + 1 - k,
{
    if k <= MAX_LOD {
        lemma_walk_fine_only(
            l1,
            l2,
            k + 1,
            (cp.0 / 2, cp.1 / 2, cp.2 / 2),
            ((cp.0 % 2) * 16 + local.0 / 2, (cp.1 % 2) * 16 + local.1 / 2, (cp.2 % 2) * 16 + local.2 / 2),
        );
    }
}

/// The walk stops at `MAX_LOD`: chunks coarser than that never change the answer.
pub proof fn lemma_coarser_chunks_ignored(l1: Level, l2: Level, pos: IVec3)
    requires
        forall|id: ChunkID| id.lod <= MAX_LOD ==> #[trigger] l1.get_spec(id) == l2.get_spec(id),
    ensures
        solid_spec(l1, pos) == solid_spec(l2, pos),
{
    lemma_walk_fine_only(
        l1,
        l2,
        0,
        (pos.x as int / 32, pos.y as int / 32, pos.z as int / 32),
        (pos.x as int % 32, pos.y as int % 32, pos.z as int % 32),
    );
}

/// A world coordinate split into its chunk (at level zero) and its place in it.
pub fn split_coord(v: i32) -> (r: (i32, i32))
    ensures
        r.0 == v / 32,
        r.1 == v % 32,
        0 <= r.1 < 32,
{
    proof {
        lemma2_to64();
        lemma_fundamental_div_mod(v as int, 32);
    }
    let c = shr_floor(v, 5);
    let l = (v as i64 - c as i64 * 32) as i32;
    (c, l)
}

/// One step up: the chunk coordinate halves, the local one moves into the parent.
fn up_coord(cp: i32, local: i32) -> (r: (i32, i32))
    requires
        0 <= local < 32,
    ensures
        r.0 == cp / 2,
        r.1 == (cp % 2) * 16 + local / 2,
        0 <= r.1 < 32,
{
    proof {
        lemma2_to64();
        lemma_fundamental_div_mod(cp as int, 2);
    }
    let half = shr_floor(cp, 1);
    let odd = (cp as i64 - half as i64 * 2) as i32;
    (half, odd * 16 + local / 2)
}

/// Whether the world voxel at `pos` is solid: the finest chunk holding voxels for
/// it decides; with none up to `MAX_LOD`, the answer is `true`.
pub fn solid_at(level: &Level, pos: IVec3) -> (r: bool)
    ensures
        r == solid_spec(*level, pos),
        ({
            let id = ChunkID { lod: 0, pos: IVec3 { x: (pos.x as int / 32) as i32, y: (pos.y as int / 32) as i32, z: (pos.z as int / 32) as i32 } };
            let c = level.get_spec(id);
            c is Some && c->Some_0.voxel is Some ==> r == c->Some_0.voxel->Some_0[pos.x as int % 32][pos.y as int % 32][pos.z as int % 32].solid()
        }),
{
    let (cx, lx) = split_coord(pos.x);
    let (cy, ly) = split_coord(pos.y);
    let (cz, lz) = split_coord(pos.z);
    let mut cp = IVec3 { x: cx, y: cy, z: cz };
    let mut local = IVec3 { x: lx, y: ly, z: lz };
    let mut lod: u16 = 0;
    while lod <= MAX_LOD
        invariant
            lod <= MAX_LOD + 1,
            0 <= local.x < 32 && 0 <= local.y < 32 && 0 <= local.z < 32,
            walk_spec(*level, lod as nat, (cp.x as int, cp.y as int, cp.z as int), (local.x as int, local.y as int, local.z as int))
                == solid_spec(*level, pos),
        decreases MAX_LOD + 1 - lod,
    {
        let id = ChunkID { lod, pos: cp };
        if let Some(c) = level.get(id) {
            if let Some(v) = &c.voxel {
                return v[local.x as usize][local.y as usize][local.z as usize].is_physically_solid();
            }
        }
        let (nx, mx) = up_coord(cp.x, local.x);
        let (ny, my) = up_coord(cp.y, local.y);
        let (nz, mz) = up_coord(cp.z, local.z);
        cp = IVec3 { x: nx, y: ny, z: nz };
        local = IVec3 { x: mx, y: my, z: mz };
        lod = lod + 1;
    }
    true
}

/// Chunk-level backface culling: the faces of chunk `id` facing direction `d` are
/// drawn unless the camera's chunk `cam` lies wholly behind them.
pub open spec fn faces_camera(id: ChunkID, cam: IVec3, d: int) -> bool {
    let s = pow2(id.lod as nat) as int;
    let t = (id.pos.x * s, id.pos.y * s, id.pos.z * s);
    if d == 0 {
        cam.x <= t.0 + s
    } else if d == 1 {
        cam.x >= t.0
    } else if d == 2 {
        cam.y <= t.1 + s
    } else if d == 3 {
        cam.y >= t.1
    } else if d == 4 {
        cam.z <= t.2 + s
    } else {
        cam.z >= t.2
    }
}

/// The instances facing `d` that the first `n` chunks of `ids` give.
pub open spec fn assembled(level: Level, ids: Seq<ChunkID>, cam: IVec3, d: int, n: nat) -> Seq<Instance>
    decreases n,
{
    if n == 0 {
        Seq::empty()
    } else {
        let prev = assembled(level, ids, cam, d, (n - 1) as nat);
        let id = ids[n - 1];
        match level.get_spec(id) {
            Some(c) => if faces_camera(id, cam, d) {
                prev + c.mesh.bucket(d)
            } else {
                prev
            },
            None => prev,
        }
    }
}

/// The frame's mesh for `desired`, with the camera in chunk `cam`.
pub open spec fn renders(level: Level, desired: Seq<ChunkID>, cam: IVec3, m: Mesh) -> bool {
    let ids = select_spec(level, desired, desired.len());
    forall|d: int| 0 <= d < 6 ==> #[trigger] m.bucket(d) == assembled(level, ids, cam, d, ids.len())
}

fn faces_camera_exec(id: ChunkID, cam: IVec3, d: u8) -> (r: bool)
    requires
        id.lod <= MAX_LOD,
        d < 6,
    ensures
        r == faces_camera(id, cam, d as int),
{
    let s = id.size() as i64;
    let x = id.pos.x as i64;
    let y = id.pos.y as i64;
    let z = id.pos.z as i64;
    assert(-0x100_0000_0000 <= x * s <= 0x100_0000_0000 && -0x100_0000_0000 <= y * s <= 0x100_0000_0000
        && -0x100_0000_0000 <= z * s <= 0x100_0000_0000) by (nonlinear_arith)
        requires
            1 <= s <= 256,
            i32::MIN <= x <= i32::MAX,
            i32::MIN <= y <= i32::MAX,
            i32::MIN <= z <= i32::MAX,
    ;
    if d == 0 {
        cam.x as i64 <= x * s + s
    } else if d == 1 {
        cam.x as i64 >= x * s
    } else if d == 2 {
        cam.y as i64 <= y * s + s
    } else if d == 3 {
        cam.y as i64 >= y * s
    } else if d == 4 {
        cam.z as i64 <= z * s + s
    } else {
        cam.z as i64 >= z * s
    }
}

/// Concatenates the meshes of `ids`, each direction only from chunks that face
/// the camera in that direction.
pub fn assemble_mesh(level: &Level, ids: &Vec<ChunkID>, cam: IVec3) -> (r: Mesh)
    requires
        lods_bounded(ids@),
    ensures
        forall|d: int| 0 <= d < 6 ==> #[trigger] r.bucket(d) == assembled(*level, ids@, cam, d, ids.len() as nat),
{
    let mut mesh = Mesh::new();
    let mut n: usize = 0;
    while n < ids.len()
        invariant
            n <= ids.len(),
            lods_bounded(ids@),
            forall|d: int| 0 <= d < 6 ==> #[trigger] mesh.bucket(d) == assembled(*level, ids@, cam, d, n as nat),
        decreases ids.len() - n,
    {
        let id = ids[n];
        match level.get(id) {
            None => {},
            Some(c) => {
                let ghost m0 = mesh;
                let mut d: u8 = 0;
                while d < 6
                    invariant
                        d <= 6,
                        id.lod <= MAX_LOD,
                        forall|e: int|
                            0 <= e < 6 ==> #[trigger] mesh.bucket(e) == if e < d && faces_camera(id, cam, e) {
                                m0.bucket(e) + c.mesh.bucket(e)
                            } else {
                                m0.bucket(e)
                            },
                    decreases 6 - d,
                {
                    if faces_camera_exec(id, cam, d) {
                        mesh.extend_bucket(&c.mesh, d);
                    }
                    d = d + 1;
                }
            },
        }
        n = n + 1;
    }
    mesh
}

/// The frame's mesh: the render set of `desired` (see `select_render_chunks`),
/// assembled with chunk-level backface culling against the camera's chunk `cam`.
pub fn get_mesh(level: &Level, desired: &Vec<ChunkID>, cam: IVec3) -> (r: Mesh)
    requires
        lods_bounded(desired@),
    ensures
        renders(*level, desired@, cam, r),
        desired.len() == 0 ==> forall|d: int| 0 <= d < 6 ==> #[trigger] r.bucket(d).len() == 0,
{
    let ids = select_render_chunks(level, desired);
    assemble_mesh(level, &ids, cam)
}

/// On an unchanged level, the same view gives the same mesh, instance for instance.
pub proof fn lemma_get_mesh_repeatable(level: Level, desired: Seq<ChunkID>, cam: IVec3, a: Mesh, b: Mesh)
    requires
        renders(level, desired, cam, a),
        renders(level, desired, cam, b),
    ensures
        forall|d: int| 0 <= d < 6 ==> #[trigger] a.bucket(d) == b.bucket(d),
{
}

/// The level holds chunk `id` and its masks wait for a rebuild.
pub open spec fn occl_dirty(level: Level, id: ChunkID) -> bool {
    level.get_spec(id) is Some && level.get_spec(id)->Some_0.occl_state == DataState::Dirty
}

/// The jobs a frame queues for the desired list, in its order: one
/// `GenerateChunkAndMesh` for each chunk whose mesh is not done.
pub open spec fn frame_jobs_spec(level: Level, desired: Seq<ChunkID>) -> Seq<Job>
    decreases desired.len(),
{
    if desired.len() == 0 {
        Seq::empty()
    } else {
        let prev = frame_jobs_spec(level, desired.drop_last());
        let id = desired.last();
        if ready(level, id) {
            prev
        } else {
            prev.push(Job::GenerateChunkAndMesh { chunk_id: id })
        }
    }
}

/// The work a frame hands to the workers for the `desired` chunks.
pub fn frame_jobs(level: &Level, desired: &Vec<ChunkID>) -> (r: Vec<Job>)
    ensures
        r@ == frame_jobs_spec(*level, desired@),
{
    let mut jobs: Vec<Job> = Vec::new();
    let mut n: usize = 0;
    while n < desired.len()
        invariant
            n <= desired.len(),
            jobs@ == frame_jobs_spec(*level, desired@.subrange(0, n as int)),
        decreases desired.len() - n,
    {
        let id = desired[n];
        assert(desired@.subrange(0, n + 1).drop_last() =~= desired@.subrange(0, n as int));
        assert(desired@.subrange(0, n + 1).last() == id);
        if !crate::render::mesh_ready(level, id) {
            jobs.push(Job::GenerateChunkAndMesh { chunk_id: id });
        }
        n = n + 1;
    }
    assert(desired@.subrange(0, desired.len() as int) =~= desired@);
    jobs
}

/// The mask rebuilds owed after voxels arrived in chunk `id`: a `GenerateMesh` for
/// each of its neighbors on sides `0..d` that the level holds with dirty masks.
pub open spec fn rebuild_jobs_spec(level: Level, id: ChunkID, d: nat) -> Seq<Job>
    decreases d,
{
    if d == 0 {
        Seq::empty()
    } else {
        let prev = rebuild_jobs_spec(level, id, (d - 1) as nat);
        match neighbor_spec(id, (d - 1) as u8) {
            Some(n) => if occl_dirty(level, n) {
                prev.push(Job::GenerateMesh { chunk_id: n })
            } else {
                prev
            },
            None => prev,
        }
    }
}

fn occlusion_dirty(level: &Level, id: ChunkID) -> (r: bool)
    ensures
        r == occl_dirty(*level, id),
{
    match level.get(id) {
        Some(c) => c.occl_state == DataState::Dirty,
        None => false,
    }
}

/// The jobs that rebuild the masks of chunk `id`'s neighbors after its voxels
/// arrived (their boundary faces were judged against air), in the order -x, +x,
/// -y, +y, -z, +z.
pub fn rebuild_jobs(level: &Level, chunk_id: ChunkID) -> (r: Vec<Job>)
    ensures
        r@ == rebuild_jobs_spec(*level, chunk_id, 6),
{
    let mut jobs: Vec<Job> = Vec::new();
    let mut d: u8 = 0;
    while d < 6
        invariant
            d <= 6,
            jobs@ == rebuild_jobs_spec(*level, chunk_id, d as nat),
        decreases 6 - d,
    {
        if let Some(n) = neighbor(chunk_id, d) {
            if occlusion_dirty(level, n) {
                jobs.push(Job::GenerateMesh { chunk_id: n });
            }
        }
        d = d + 1;
    }
    jobs
}

/// The streaming core for one world: its generator and its chunk store.
pub struct Server<G: Generator> {
    pub generator: G,
    pub level: Level,
}

impl<G: Generator> Server<G> {
    pub fn new(generator: G) -> (r: Server<G>)
        ensures
            r.generator == generator,
            forall|id: ChunkID| #[trigger] r.level.get_spec(id) is None,
    {
        Server { generator, level: Level::with_capacity(8) }
    }

    /// The jobs a frame asks for, see `frame_jobs`.
    pub fn jobs_for(&self, desired: &Vec<ChunkID>) -> (r: Vec<Job>)
        ensures
            r@ == frame_jobs_spec(self.level, desired@),
    {
        frame_jobs(&self.level, desired)
    }

    /// Runs one job on this server's level with its generator.
    pub fn run_job(&mut self, job: Job) -> (r: Result<(), JobError>)
        requires
            job_fits(job),
        ensures
            job_post(job, old(self).level, final(self).level, r),
    {
        job.run(&mut self.level, &self.generator)
    }

    /// The frame's mesh for the `desired` chunks, see `get_mesh`.
    pub fn get_mesh(&self, desired: &Vec<ChunkID>, cam: IVec3) -> (r: Mesh)
        requires
            lods_bounded(desired@),
        ensures
            renders(self.level, desired@, cam, r),
            desired.len() == 0 ==> forall|d: int| 0 <= d < 6 ==> #[trigger] r.bucket(d).len() == 0,
    {
        get_mesh(&self.level, desired, cam)
    }

    /// Whether the world voxel at `pos` is solid, see `solid_at`.
    pub fn solid_at(&self, pos: IVec3) -> (r: bool)
        ensures
            r == solid_spec(self.level, pos),
    {
        solid_at(&self.level, pos)
    }
}

} // verus!
