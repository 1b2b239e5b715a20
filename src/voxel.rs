use vstd::prelude::*;

verus! {

/// Index of a face direction: 0 = -x, 1 = +x, 2 = -y, 3 = +y, 4 = -z, 5 = +z.
pub type Face = u8;

/// Texture index of a voxel face, as the renderer reads it.
pub type TextureID = u16;

/// The top bit of a 32-bit word: the first voxel of a packed run.
pub const FIRST_BIT: u32 = 0x8000_0000;

#[derive(Debug, Clone, Copy, PartialEq, Eq, Structural)]
pub enum VoxelType {
    Air,
    CrackedStone,
    Stone,
    Dirt,
}

/// A 32 x 32 x 32 block of voxels, indexed `[x][y][z]`.
pub type VoxelData3D = [[[VoxelType; 32]; 32]; 32];

impl VoxelType {
    /// Every kind of voxel but air is solid.
    pub open spec fn solid(self) -> bool {
        self != VoxelType::Air
    }

    /// The texture a solid voxel shows on each of its faces: its kind, counted
    /// from the first solid kind.
    pub open spec fn texture_spec(self) -> u16 {
        match self {
            VoxelType::Air => 0,
            VoxelType::CrackedStone => 0,
            VoxelType::Stone => 1,
            VoxelType::Dirt => 2,
        }
    }

    /// Picks air, stone or dirt from a roll in `0..=2`; a larger roll gives dirt.
    pub open spec fn from_roll_spec(roll: u32) -> VoxelType {
        if roll == 0 {
            VoxelType::Air
        } else if roll == 1 {
            VoxelType::Stone
        } else {
            VoxelType::Dirt
        }
    }

    /// Stone on a roll of zero, dirt otherwise.
    pub open spec fn weighted_from_roll_spec(roll: u32) -> VoxelType {
        if roll == 0 {
            VoxelType::Stone
        } else {
            VoxelType::Dirt
        }
    }

    pub fn from_roll(roll: u32) -> (r: VoxelType)
        ensures
            r == Self::from_roll_spec(roll),
    {
        if roll == 0 {
            VoxelType::Air
        } else if roll == 1 {
            VoxelType::Stone
        } else {
            VoxelType::Dirt
        }
    }

    pub fn weighted_from_roll(roll: u32) -> (r: VoxelType)
        ensures
            r == Self::weighted_from_roll_spec(roll),
    {
        if roll == 0 {
            VoxelType::Stone
        } else {
            VoxelType::Dirt
        }
    }

    /// Air, stone or dirt, each with the same chance.
    pub fn from_random() -> (r: VoxelType)
        ensures
            r == VoxelType::Air || r == VoxelType::Stone || r == VoxelType::Dirt,
    {
        let roll = crate::random::get_random(0, 2);
        Self::from_roll(roll)
    }

    /// Stone with a chance of one in five, dirt otherwise.
    pub fn random_weighted() -> (r: VoxelType)
        ensures
            r == VoxelType::Stone || r == VoxelType::Dirt,
    {
        let roll = crate::random::get_random(0, 4);
        Self::weighted_from_roll(roll)
    }

    pub fn is_physically_solid(self) -> (r: bool)
        ensures
            r == self.solid(),
    {
        self != VoxelType::Air
    }

    /// The voxel's solidity as the top bit of a word.
    pub fn is_solid_u32(self) -> (r: u32)
        ensures
            r == (if self.solid() { FIRST_BIT } else { 0u32 }),
    {
        if self != VoxelType::Air {
            FIRST_BIT
        } else {
            0
        }
    }

    /// The texture of the given face of a solid voxel. Every face of a voxel
    /// shows the same texture.
    pub fn texture_id(self, orientation: Face) -> (r: TextureID)
        requires
            self.solid(),
        ensures
            r == self.texture_spec(),
    {
        match self {
            VoxelType::Air => 0,
            VoxelType::CrackedStone => 0,
            VoxelType::Stone => 1,
            VoxelType::Dirt => 2,
        }
    }
}

/// A block whose every voxel is `value`.
pub fn fill(value: VoxelType) -> (r: VoxelData3D)
    ensures
        forall|x: int, y: int, z: int|
            0 <= x < 32 && 0 <= y < 32 && 0 <= z < 32 ==> #[trigger] r[x][y][z] == value,
{
    let row: [VoxelType; 32] = [value; 32];
    let plane: [[VoxelType; 32]; 32] = [row; 32];
    let r: VoxelData3D = [plane; 32];
    assert forall|x: int, y: int, z: int|
        0 <= x < 32 && 0 <= y < 32 && 0 <= z < 32 implies #[trigger] r[x][y][z] == value by {
        assert(r[x] == plane);
        assert(plane[y] == row);
    }
    r
}

} // verus!
