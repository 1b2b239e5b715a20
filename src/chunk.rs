use std::collections::HashMap;
use vstd::prelude::*;

use crate::chunk_id::{key_of, lemma_key_injective, ChunkID};
use crate::mesh::Mesh;
use crate::occlusion::BitMap3D;
use crate::state::DataState;
use crate::voxel::VoxelData3D;

verus! {

broadcast use vstd::std_specs::hash::group_hash_axioms;

/// A chunk's three generation stages, each a data slot with its state: the voxels,
/// the visibility masks made from them, and the mesh made from both.
pub struct Chunk {
    pub voxel_state: DataState,
    pub voxel: Option<VoxelData3D>,
    pub occl_state: DataState,
    /// Masks for the faces -x, +x, -y, +y, -z, +z.
    pub occl: Option<[BitMap3D; 6]>,
    pub mesh_state: DataState,
    pub mesh: Mesh,
}

impl Chunk {
    /// A chunk with empty slots; the voxel stage starts in `voxel_state`, the two
    /// later stages are done.
    pub fn new(voxel_state: DataState) -> (r: Chunk)
        ensures
            r.voxel_state == voxel_state,
            r.voxel is None,
            r.occl_state == DataState::Done,
            r.occl is None,
            r.mesh_state == DataState::Done,
            forall|d: int| 0 <= d < 6 ==> #[trigger] r.mesh.bucket(d).len() == 0,
    {
        Chunk {
            voxel_state,
            voxel: None,
            occl_state: DataState::Done,
            occl: None,
            mesh_state: DataState::Done,
            mesh: Mesh::new(),
        }
    }

    /// Stores the voxels, ends the voxel stage and invalidates both later stages.
    pub fn write_voxel(&mut self, voxel: VoxelData3D)
        ensures
            final(self).voxel == Some(voxel),
            final(self).voxel_state == old(self).voxel_state.finish_spec(),
            final(self).occl_state == old(self).occl_state.mark_dirty_spec(),
            final(self).mesh_state == old(self).mesh_state.mark_dirty_spec(),
            final(self).occl == old(self).occl,
            final(self).mesh == old(self).mesh,
    {
        self.voxel = Some(voxel);
        self.voxel_state = self.voxel_state.finish_generating();
        self.occl_state = self.occl_state.mark_dirty();
        self.mesh_state = self.mesh_state.mark_dirty();
    }

    /// Stores the masks, ends the occlusion stage and invalidates the mesh.
    pub fn write_occl(&mut self, occl: [BitMap3D; 6])
        ensures
            final(self).occl == Some(occl),
            final(self).occl_state == old(self).occl_state.finish_spec(),
            final(self).mesh_state == old(self).mesh_state.mark_dirty_spec(),
            final(self).voxel_state == old(self).voxel_state,
            final(self).voxel == old(self).voxel,
            final(self).mesh == old(self).mesh,
    {
        self.occl = Some(occl);
        self.occl_state = self.occl_state.finish_generating();
        self.mesh_state = self.mesh_state.mark_dirty();
    }

    /// Stores the mesh and ends the mesh stage.
    pub fn write_mesh(&mut self, mesh: Mesh)
        ensures
            final(self).mesh == mesh,
            final(self).mesh_state == old(self).mesh_state.finish_spec(),
            final(self).voxel_state == old(self).voxel_state,
            final(self).voxel == old(self).voxel,
            final(self).occl_state == old(self).occl_state,
            final(self).occl == old(self).occl,
    {
        self.mesh = mesh;
        self.mesh_state = self.mesh_state.finish_generating();
    }
}

/// A write to the voxels leaves each later stage either dirty, or generating with
/// a rerun owed: finishing that generation leaves it dirty. Either way the stage is
/// not done until it is built again from the new voxels.
pub proof fn lemma_write_voxel_invalidates(c: Chunk, after: Chunk)
    requires
        after.occl_state == c.occl_state.mark_dirty_spec(),
        after.mesh_state == c.mesh_state.mark_dirty_spec(),
    ensures
        after.occl_state == DataState::Dirty || after.occl_state == DataState::GeneratingDirty,
        after.mesh_state == DataState::Dirty || after.mesh_state == DataState::GeneratingDirty,
        after.occl_state.finish_spec() == DataState::Dirty,
        after.mesh_state.finish_spec() == DataState::Dirty,
{
}

/// The store after an insert of `c` under `id`: unchanged when `id` is taken.
pub open spec fn inserted(m: Map<u128, Chunk>, id: ChunkID, c: Chunk) -> Map<u128, Chunk> {
    if m.contains_key(key_of(id)) {
        m
    } else {
        m.insert(key_of(id), c)
    }
}

/// Of two inserts under one id, exactly one wins: the second leaves the store as
/// the first made it, and the chunk stored is the one already there, else the first
/// one inserted. Taking a chunk out and inserting it again restores the store.
pub proof fn lemma_single_winner(m: Map<u128, Chunk>, id: ChunkID, a: Chunk, b: Chunk)
    ensures
        inserted(inserted(m, id, a), id, b) == inserted(m, id, a),
        inserted(m, id, a).contains_key(key_of(id)),
        inserted(m, id, a)[key_of(id)] == if m.contains_key(key_of(id)) {
            m[key_of(id)]
        } else {
            a
        },
        m.contains_key(key_of(id)) ==> inserted(m.remove(key_of(id)), id, m[key_of(id)]) == m,
{
    let k = key_of(id);
    if m.contains_key(k) {
        assert(m.remove(k).insert(k, m[k]) =~= m);
    }
}

/// The chunk store: at most one chunk per `ChunkID`, held under the chunk's key.
pub struct Level {
    pub chunks: HashMap<u128, Chunk>,
}

impl Level {
    /// The chunk stored for `id`, if any.
    pub open spec fn get_spec(&self, id: ChunkID) -> Option<Chunk> {
        if self.chunks@.contains_key(key_of(id)) {
            Some(self.chunks@[key_of(id)])
        } else {
            None
        }
    }

    pub fn new() -> (r: Level)
        ensures
            forall|id: ChunkID| #[trigger] r.get_spec(id) is None,
    {
        Level { chunks: HashMap::new() }
    }

    pub fn with_capacity(cap: usize) -> (r: Level)
        ensures
            forall|id: ChunkID| #[trigger] r.get_spec(id) is None,
    {
        Level { chunks: HashMap::with_capacity(cap) }
    }

    pub fn contains(&self, chunk_id: ChunkID) -> (r: bool)
        ensures
            r == self.get_spec(chunk_id) is Some,
    {
        self.chunks.contains_key(&chunk_id.key())
    }

    /// Adds `chunk` under `chunk_id` unless a chunk is there already.
    pub fn insert(&mut self, chunk_id: ChunkID, chunk: Chunk) -> (r: Result<(), ()>)
        ensures
            r is Err <==> old(self).get_spec(chunk_id) is Some,
            r is Err ==> final(self).chunks@ == old(self).chunks@,
            r is Ok ==> final(self).chunks@ == old(self).chunks@.insert(key_of(chunk_id), chunk),
            final(self).chunks@ == inserted(old(self).chunks@, chunk_id, chunk),
            r is Ok ==> final(self).get_spec(chunk_id) == Some(chunk),
            forall|other: ChunkID|
                other != chunk_id ==> #[trigger] final(self).get_spec(other) == old(self).get_spec(
                    other,
                ),
    {
        let k = chunk_id.key();
        proof {
            assert forall|other: ChunkID| other != chunk_id implies key_of(other) != key_of(
                chunk_id,
            ) by {
                lemma_key_injective(other, chunk_id);
            }
        }
        if self.chunks.contains_key(&k) {
            return Err(());
        }
        self.chunks.insert(k, chunk);
        Ok(())
    }

    /// The chunk stored for `chunk_id`.
    pub fn get(&self, chunk_id: ChunkID) -> (r: Option<&Chunk>)
        ensures
            match r {
                Some(c) => self.get_spec(chunk_id) == Some(*c),
                None => self.get_spec(chunk_id) is None,
            },
    {
        self.chunks.get(&chunk_id.key())
    }

    /// Runs `f` on the chunk of `chunk_id`; `None` when there is no such chunk.
    pub fn chunk_op<A, F: FnOnce(&Chunk) -> A>(&self, chunk_id: ChunkID, f: F) -> (r: Option<A>)
        requires
            forall|c: &Chunk| #[trigger] f.requires((c,)),
        ensures
            r is Some <==> self.get_spec(chunk_id) is Some,
            r is Some ==> f.ensures((&self.get_spec(chunk_id)->Some_0,), r->Some_0),
    {
        match self.chunks.get(&chunk_id.key()) {
            Some(c) => Some(f(c)),
            None => None,
        }
    }

    /// Takes the chunk of `chunk_id` out of the store; `None` when there is none.
    pub fn take(&mut self, chunk_id: ChunkID) -> (r: Option<Chunk>)
        ensures
            r == old(self).get_spec(chunk_id),
            final(self).chunks@ == old(self).chunks@.remove(key_of(chunk_id)),
    {
        self.chunks.remove(&chunk_id.key())
    }

    /// Puts a chunk back under `chunk_id`, replacing any there.
    pub fn put(&mut self, chunk_id: ChunkID, chunk: Chunk)
        ensures
            final(self).chunks@ == old(self).chunks@.insert(key_of(chunk_id), chunk),
            final(self).get_spec(chunk_id) == Some(chunk),
            forall|other: ChunkID|
                other != chunk_id ==> #[trigger] final(self).get_spec(other) == old(self).get_spec(
                    other,
                ),
    {
        proof {
            assert forall|other: ChunkID| other != chunk_id implies key_of(other) != key_of(
                chunk_id,
            ) by {
                lemma_key_injective(other, chunk_id);
            }
        }
        self.chunks.insert(chunk_id.key(), chunk);
    }
}

} // verus!
