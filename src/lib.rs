use vstd::prelude::*;

pub mod chunk;
pub mod chunk_id;
pub mod frustum;
pub mod job;
pub mod mesh;
pub mod meshing;
pub mod occlusion;
pub mod queue;
pub mod random;
pub mod render;
pub mod server;
pub mod state;
pub mod voxel;
pub mod world_gen;

pub use chunk::{Chunk, Level};
pub use chunk_id::{chunk_overlaps, ChunkID, IVec3, LodLevel};
pub use frustum::{flood_fill, lod_level_for};
pub use job::{Generator, Job, JobError};
pub use mesh::{Instance, Mesh};
pub use state::{AtomicDataState, DataState};
pub use voxel::{fill, TextureID, VoxelData3D, VoxelType};
pub use world_gen::WhiteNoise;

verus! {

/// Highest level of detail any chunk can have.
pub const MAX_LOD: u16 = 8;

} // verus!
