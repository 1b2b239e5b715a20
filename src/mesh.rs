use vstd::prelude::*;

use crate::chunk_id::{IVec3, LodLevel};
use crate::voxel::TextureID;

verus! {

/// One visible face of one voxel: where it is, in voxels of level zero, and its
/// kind, which packs the level of detail into the upper 16 bits and the texture
/// into the lower 16.
#[derive(Debug, Clone, Copy, PartialEq, Eq, Structural)]
pub struct Instance {
    pub pos: IVec3,
    pub kind: u32,
}

pub open spec fn kind_spec(lod: LodLevel, texture: TextureID) -> u32 {
    (lod as int * 0x1_0000 + texture as int) as u32
}

/// The kind of a face instance: `lod << 16 | texture`.
pub fn instance_kind(lod: LodLevel, texture: TextureID) -> (r: u32)
    ensures
        r == kind_spec(lod, texture),
        r >> 16u32 == lod,
        r & 0xffffu32 == texture,
{
    let l = lod as u32;
    let t = texture as u32;
    let r = (l << 16u32) | t;
    assert(r == l * 0x1_0000 + t && r >> 16u32 == l && r & 0xffffu32 == t) by (bit_vector)
        requires
            l < 0x1_0000,
            t < 0x1_0000,
            r == (l << 16u32) | t,
    ;
    r
}

/// Face instances sorted by the direction they face.
#[derive(Debug, Clone)]
pub struct Mesh {
    pub nx: Vec<Instance>,
    pub px: Vec<Instance>,
    pub ny: Vec<Instance>,
    pub py: Vec<Instance>,
    pub nz: Vec<Instance>,
    pub pz: Vec<Instance>,
}

impl Mesh {
    /// The instances facing direction `d` (0 = -x, 1 = +x, 2 = -y, 3 = +y, 4 = -z, 5 = +z).
    pub open spec fn bucket(&self, d: int) -> Seq<Instance> {
        if d == 0 {
            self.nx@
        } else if d == 1 {
            self.px@
        } else if d == 2 {
            self.ny@
        } else if d == 3 {
            self.py@
        } else if d == 4 {
            self.nz@
        } else {
            self.pz@
        }
    }

    pub open spec fn total_spec(&self) -> nat {
        self.nx@.len() + self.px@.len() + self.ny@.len() + self.py@.len() + self.nz@.len()
            + self.pz@.len()
    }

    pub fn new() -> (r: Mesh)
        ensures
            forall|d: int| 0 <= d < 6 ==> #[trigger] r.bucket(d) == Seq::<Instance>::empty(),
    {
        Mesh { nx: Vec::new(), px: Vec::new(), ny: Vec::new(), py: Vec::new(), nz: Vec::new(), pz: Vec::new() }
    }

    /// An empty mesh with room for `capacity` instances in each direction.
    pub fn with_capacity(capacity: usize) -> (r: Mesh)
        ensures
            forall|d: int| 0 <= d < 6 ==> #[trigger] r.bucket(d).len() == 0,
    {
        Mesh {
            nx: Vec::with_capacity(capacity),
            px: Vec::with_capacity(capacity),
            ny: Vec::with_capacity(capacity),
            py: Vec::with_capacity(capacity),
            nz: Vec::with_capacity(capacity),
            pz: Vec::with_capacity(capacity),
        }
    }

    /// The number of instances over all six directions.
    pub fn len(&self) -> (r: usize)
        requires
            self.total_spec() <= usize::MAX,
        ensures
            r == self.total_spec(),
    {
        self.nx.len() + self.px.len() + self.ny.len() + self.py.len() + self.nz.len() + self.pz.len()
    }

    /// Adds `inst` at the end of the bucket for direction `d`.
    pub fn push_face(&mut self, d: u8, inst: Instance)
        requires
            d < 6,
        ensures
            forall|e: int|
                0 <= e < 6 ==> #[trigger] final(self).bucket(e) == if e == d as int {
                    old(self).bucket(e).push(inst)
                } else {
                    old(self).bucket(e)
                },
    {
        if d == 0 {
            self.nx.push(inst);
        } else if d == 1 {
            self.px.push(inst);
        } else if d == 2 {
            self.ny.push(inst);
        } else if d == 3 {
            self.py.push(inst);
        } else if d == 4 {
            self.nz.push(inst);
        } else {
            self.pz.push(inst);
        }
    }

    pub fn add_nx(&mut self, pos: IVec3, texture: TextureID, lod: LodLevel)
        ensures
            forall|e: int|
                0 <= e < 6 ==> #[trigger] final(self).bucket(e) == if e == 0 {
                    old(self).bucket(e).push(Instance { pos, kind: kind_spec(lod, texture) })
                } else {
                    old(self).bucket(e)
                },
    {
        let kind = instance_kind(lod, texture);
        self.push_face(0, Instance { pos, kind });
    }

    pub fn add_px(&mut self, pos: IVec3, texture: TextureID, lod: LodLevel)
        ensures
            forall|e: int|
                0 <= e < 6 ==> #[trigger] final(self).bucket(e) == if e == 1 {
                    old(self).bucket(e).push(Instance { pos, kind: kind_spec(lod, texture) })
                } else {
                    old(self).bucket(e)
                },
    {
        let kind = instance_kind(lod, texture);
        self.push_face(1, Instance { pos, kind });
    }

    pub fn add_ny(&mut self, pos: IVec3, texture: TextureID, lod: LodLevel)
        ensures
            forall|e: int|
                0 <= e < 6 ==> #[trigger] final(self).bucket(e) == if e == 2 {
                    old(self).bucket(e).push(Instance { pos, kind: kind_spec(lod, texture) })
                } else {
                    old(self).bucket(e)
                },
    {
        let kind = instance_kind(lod, texture);
        self.push_face(2, Instance { pos, kind });
    }

    pub fn add_py(&mut self, pos: IVec3, texture: TextureID, lod: LodLevel)
        ensures
            forall|e: int|
                0 <= e < 6 ==> #[trigger] final(self).bucket(e) == if e == 3 {
                    old(self).bucket(e).push(Instance { pos, kind: kind_spec(lod, texture) })
                } else {
                    old(self).bucket(e)
                },
    {
        let kind = instance_kind(lod, texture);
        self.push_face(3, Instance { pos, kind });
    }

    pub fn add_nz(&mut self, pos: IVec3, texture: TextureID, lod: LodLevel)
        ensures
            forall|e: int|
                0 <= e < 6 ==> #[trigger] final(self).bucket(e) == if e == 4 {
                    old(self).bucket(e).push(Instance { pos, kind: kind_spec(lod, texture) })
                } else {
                    old(self).bucket(e)
                },
    {
        let kind = instance_kind(lod, texture);
        self.push_face(4, Instance { pos, kind });
    }

    pub fn add_pz(&mut self, pos: IVec3, texture: TextureID, lod: LodLevel)
        ensures
            forall|e: int|
                0 <= e < 6 ==> #[trigger] final(self).bucket(e) == if e == 5 {
                    old(self).bucket(e).push(Instance { pos, kind: kind_spec(lod, texture) })
                } else {
                    old(self).bucket(e)
                },
    {
        let kind = instance_kind(lod, texture);
        self.push_face(5, Instance { pos, kind });
    }

    /// Appends a copy of the instances of `other` facing direction `d`.
    pub fn extend_bucket(&mut self, other: &Mesh, d: u8)
        requires
            d < 6,
        ensures
            forall|e: int|
                0 <= e < 6 ==> #[trigger] final(self).bucket(e) == if e == d as int {
                    old(self).bucket(e) + other.bucket(e)
                } else {
                    old(self).bucket(e)
                },
    {
        let src: &Vec<Instance> = if d == 0 {
            &other.nx
        } else if d == 1 {
            &other.px
        } else if d == 2 {
            &other.ny
        } else if d == 3 {
            &other.py
        } else if d == 4 {
            &other.nz
        } else {
            &other.pz
        };
        let ghost start = self.bucket(d as int);
        let mut i: usize = 0;
        while i < src.len()
            invariant
                d < 6,
                src@ == other.bucket(d as int),
                i <= src.len(),
                self.bucket(d as int) == start + src@.subrange(0, i as int),
                forall|e: int| 0 <= e < 6 && e != d ==> #[trigger] self.bucket(e) == old(self).bucket(e),
                start == old(self).bucket(d as int),
            decreases src.len() - i,
        {
            let ghost before = self.bucket(d as int);
            self.push_face(d, src[i]);
            assert(src@.subrange(0, i + 1) =~= src@.subrange(0, i as int).push(src[i as int]));
            i = i + 1;
        }
        assert(src@.subrange(0, src.len() as int) =~= src@);
    }

    /// Appends all instances of `other`, direction by direction.
    pub fn append(&mut self, other: &Mesh)
        ensures
            forall|e: int| 0 <= e < 6 ==> #[trigger] final(self).bucket(e) == old(self).bucket(e) + other.bucket(e),
    {
        let mut d: u8 = 0;
        while d < 6
            invariant
                d <= 6,
                forall|e: int|
                    0 <= e < 6 ==> #[trigger] self.bucket(e) == if e < d {
                        old(self).bucket(e) + other.bucket(e)
                    } else {
                        old(self).bucket(e)
                    },
            decreases 6 - d,
        {
            self.extend_bucket(other, d);
            d = d + 1;
        }
    }
}

} // verus!
