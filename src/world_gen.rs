use vstd::prelude::*;

use crate::chunk_id::ChunkID;
use crate::job::Generator;
use crate::voxel::{fill, VoxelData3D, VoxelType};

verus! {

/// A generator that fills every chunk with stone and dirt at random.
#[derive(Debug, Clone, Copy)]
pub struct WhiteNoise {
    pub seed: u64,
}

impl WhiteNoise {
    pub fn new(seed: u64) -> (r: WhiteNoise)
        ensures
            r.seed == seed,
    {
        WhiteNoise { seed }
    }
}

impl Generator for WhiteNoise {
    fn generate(&self, chunk_id: ChunkID) -> VoxelData3D {
        let mut voxels = fill(VoxelType::Air);
        let mut x: usize = 0;
        while x < 32
            invariant
                x <= 32,
            decreases 32 - x,
        {
            let mut plane = voxels[x];
            let mut y: usize = 0;
            while y < 32
                invariant
                    y <= 32,
                decreases 32 - y,
            {
                let mut row = plane[y];
                let mut z: usize = 0;
                while z < 32
                    invariant
                        z <= 32,
                    decreases 32 - z,
                {
                    row[z] = VoxelType::random_weighted();
                    z = z + 1;
                }
                plane[y] = row;
                y = y + 1;
            }
            voxels[x] = plane;
            x = x + 1;
        }
        voxels
    }

    fn seed(&self) -> u64 {
        self.seed
    }
}

} // verus!
