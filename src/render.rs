use vstd::prelude::*;

use crate::chunk::Level;
use crate::chunk_id::{chunk_overlaps, overlaps_spec, ChunkID};
use crate::state::DataState;
use crate::MAX_LOD;

verus! {

/// The level holds a finished mesh for `id`.
pub open spec fn ready(level: Level, id: ChunkID) -> bool {
    match level.get_spec(id) {
        Some(c) => c.mesh_state == DataState::Done,
        None => false,
    }
}

/// The chunk drawn in place of `id`: `id` itself when its mesh is done, else its
/// nearest ancestor with a done mesh, looking no coarser than `MAX_LOD`.
pub open spec fn substitute(level: Level, id: ChunkID) -> Option<ChunkID>
    decreases MAX_LOD - id.lod,
{
    if ready(level, id) {
        Some(id)
    } else if id.lod < MAX_LOD {
        substitute(level, id.parent_spec())
    } else {
        None
    }
}

/// The selected chunks that stay when `cand` comes: all but those overlapping it
/// that are strictly coarser.
pub open spec fn keep_spec(sel: Seq<ChunkID>, cand: ChunkID) -> Seq<ChunkID>
    decreases sel.len(),
{
    if sel.len() == 0 {
        Seq::empty()
    } else {
        let prev = keep_spec(sel.drop_last(), cand);
        let e = sel.last();
        if overlaps_spec(e, cand) && e.lod > cand.lod {
            prev
        } else {
            prev.push(e)
        }
    }
}

/// One step of the resolver: coarser overlapping chunks give way to `cand`, and
/// `cand` joins unless an overlapping chunk at least as fine is already there.
pub open spec fn select_step(sel: Seq<ChunkID>, cand: ChunkID) -> Seq<ChunkID> {
    let kept = keep_spec(sel, cand);
    if exists|i: int| 0 <= i < kept.len() && overlaps_spec(#[trigger] kept[i], cand) {
        kept
    } else {
        kept.push(cand)
    }
}

/// The render set for the first `n` desired chunks.
pub open spec fn select_spec(level: Level, desired: Seq<ChunkID>, n: nat) -> Seq<ChunkID>
    decreases n,
{
    if n == 0 {
        Seq::empty()
    } else {
        let prev = select_spec(level, desired, (n - 1) as nat);
        match substitute(level, desired[n - 1]) {
            Some(c) => select_step(prev, c),
            None => prev,
        }
    }
}

/// No two chunks of `s` overlap.
pub open spec fn disjoint(s: Seq<ChunkID>) -> bool {
    forall|i: int, j: int|
        0 <= i < s.len() && 0 <= j < s.len() && i != j ==> !overlaps_spec(#[trigger] s[i], #[trigger] s[j])
}

pub open spec fn lods_bounded(s: Seq<ChunkID>) -> bool {
    forall|i: int| 0 <= i < s.len() ==> #[trigger] s[i].lod <= MAX_LOD
}

/// Whether the level holds a finished mesh for `chunk_id`.
pub fn mesh_ready(level: &Level, chunk_id: ChunkID) -> (r: bool)
    ensures
        r == ready(*level, chunk_id),
{
    match level.get(chunk_id) {
        Some(c) => c.mesh_state.is_done(),
        None => false,
    }
}

/// The chunk to draw for `desired`, see `substitute`.
pub fn find_substitute(level: &Level, desired: ChunkID) -> (r: Option<ChunkID>)
    requires
        desired.lod <= MAX_LOD,
    ensures
        r == substitute(*level, desired),
        r matches Some(c) ==> c.lod <= MAX_LOD,
{
    let mut next = desired;
    while !mesh_ready(level, next)
        invariant
            next.lod <= MAX_LOD,
            substitute(*level, next) == substitute(*level, desired),
        decreases MAX_LOD - next.lod,
    {
        if next.lod >= MAX_LOD {
            return None;
        }
        next = next.parent();
    }
    Some(next)
}

proof fn lemma_keep_facts(sel: Seq<ChunkID>, cand: ChunkID)
    requires
        disjoint(sel),
        lods_bounded(sel),
    ensures
        disjoint(keep_spec(sel, cand)),
        lods_bounded(keep_spec(sel, cand)),
        forall|i: int|
            0 <= i < keep_spec(sel, cand).len() ==> sel.contains(#[trigger] keep_spec(sel, cand)[i]),
        forall|i: int|
            0 <= i < keep_spec(sel, cand).len() ==> !(overlaps_spec(#[trigger] keep_spec(sel, cand)[i], cand)
                && keep_spec(sel, cand)[i].lod > cand.lod),
    decreases sel.len(),
{
    if sel.len() > 0 {
        let init = sel.drop_last();
        assert(disjoint(init)) by {
            assert forall|i: int, j: int|
                0 <= i < init.len() && 0 <= j < init.len() && i != j implies !overlaps_spec(
                #[trigger] init[i],
                #[trigger] init[j],
            ) by {
                assert(init[i] == sel[i] && init[j] == sel[j]);
            }
        }
        assert(lods_bounded(init)) by {
            assert forall|i: int| 0 <= i < init.len() implies #[trigger] init[i].lod <= MAX_LOD by {
                assert(init[i] == sel[i]);
            }
        }
        lemma_keep_facts(init, cand);
        let prev = keep_spec(init, cand);
        let e = sel.last();
        assert forall|i: int| 0 <= i < prev.len() implies sel.contains(#[trigger] prev[i]) by {
            assert(init.contains(prev[i]));
            let j = choose|j: int| 0 <= j < init.len() && init[j] == prev[i];
            assert(sel[j] == prev[i]);
        }
        if !(overlaps_spec(e, cand) && e.lod > cand.lod) {
            let r = prev.push(e);
            assert(sel[sel.len() - 1] == e);
            assert forall|i: int, j: int|
                0 <= i < r.len() && 0 <= j < r.len() && i != j implies !overlaps_spec(
                #[trigger] r[i],
                #[trigger] r[j],
            ) by {
                if i < prev.len() && j < prev.len() {
                    assert(r[i] == prev[i] && r[j] == prev[j]);
                } else if i < prev.len() {
                    assert(r[i] == prev[i]);
                    lemma_not_last_overlap(sel, prev[i]);
                } else {
                    assert(r[j] == prev[j]);
                    lemma_not_last_overlap(sel, prev[j]);
                    lemma_overlaps_symmetric(r[i], r[j]);
                }
            }
            assert forall|i: int| 0 <= i < r.len() implies sel.contains(#[trigger] r[i]) by {
                if i < prev.len() {
                    assert(r[i] == prev[i]);
                } else {
                    assert(r[i] == sel[sel.len() - 1]);
                }
            }
        }
    }
}

/// An element of `init` other than the last one of `sel` does not overlap it.
proof fn lemma_not_last_overlap(sel: Seq<ChunkID>, x: ChunkID)
    requires
        sel.len() > 0,
        disjoint(sel),
        sel.drop_last().contains(x),
    ensures
        !overlaps_spec(x, sel.last()),
{
    let init = sel.drop_last();
    let j = choose|j: int| 0 <= j < init.len() && init[j] == x;
    assert(sel[j] == x);
    assert(!overlaps_spec(sel[j], sel[sel.len() - 1]));
}

proof fn lemma_overlaps_symmetric(a: ChunkID, b: ChunkID)
    ensures
        overlaps_spec(a, b) == overlaps_spec(b, a),
{
}

/// Each resolver step keeps the render set free of overlaps.
proof fn lemma_step_disjoint(sel: Seq<ChunkID>, cand: ChunkID)
    requires
        disjoint(sel),
        lods_bounded(sel),
        cand.lod <= MAX_LOD,
    ensures
        disjoint(select_step(sel, cand)),
        lods_bounded(select_step(sel, cand)),
{
    lemma_keep_facts(sel, cand);
    let kept = keep_spec(sel, cand);
    if !(exists|i: int| 0 <= i < kept.len() && overlaps_spec(#[trigger] kept[i], cand)) {
        let r = kept.push(cand);
        assert forall|i: int, j: int|
            0 <= i < r.len() && 0 <= j < r.len() && i != j implies !overlaps_spec(
            #[trigger] r[i],
            #[trigger] r[j],
        ) by {
            if i < kept.len() && j < kept.len() {
                assert(r[i] == kept[i] && r[j] == kept[j]);
            } else if i < kept.len() {
                assert(r[i] == kept[i]);
            } else {
                assert(r[j] == kept[j]);
                lemma_overlaps_symmetric(r[i], r[j]);
            }
        }
    }
}

proof fn lemma_select_disjoint(level: Level, desired: Seq<ChunkID>, n: nat)
    requires
        n <= desired.len(),
        lods_bounded(desired),
    ensures
        disjoint(select_spec(level, desired, n)),
        lods_bounded(select_spec(level, desired, n)),
    decreases n,
{
    if n > 0 {
        lemma_select_disjoint(level, desired, (n - 1) as nat);
        let prev = select_spec(level, desired, (n - 1) as nat);
        lemma_substitute_bounded(level, desired[n - 1]);
        match substitute(level, desired[n - 1]) {
            Some(c) => lemma_step_disjoint(prev, c),
            None => {},
        }
    }
}

proof fn lemma_substitute_bounded(level: Level, id: ChunkID)
    requires
        id.lod <= MAX_LOD,
    ensures
        substitute(level, id) matches Some(c) ==> c.lod <= MAX_LOD,
    decreases MAX_LOD - id.lod,
{
    if !ready(level, id) && id.lod < MAX_LOD {
        lemma_substitute_bounded(level, id.parent_spec());
    }
}

/// No two chunks of the render set overlap, for every level and every desired list.
pub proof fn lemma_render_set_disjoint(level: Level, desired: Seq<ChunkID>)
    requires
        lods_bounded(desired),
    ensures
        disjoint(select_spec(level, desired, desired.len())),
{
    lemma_select_disjoint(level, desired, desired.len());
}

/// The entries of `sel` that stay when `cand` joins, see `keep_spec`.
fn keep(sel: &Vec<ChunkID>, cand: ChunkID) -> (r: Vec<ChunkID>)
    requires
        lods_bounded(sel@),
        cand.lod <= MAX_LOD,
    ensures
        r@ == keep_spec(sel@, cand),
{
    let mut r: Vec<ChunkID> = Vec::new();
    let mut i: usize = 0;
    while i < sel.len()
        invariant
            i <= sel.len(),
            lods_bounded(sel@),
            cand.lod <= MAX_LOD,
            r@ == keep_spec(sel@.subrange(0, i as int), cand),
        decreases sel.len() - i,
    {
        let e = sel[i];
        assert(sel@.subrange(0, i + 1).drop_last() =~= sel@.subrange(0, i as int));
        assert(sel@.subrange(0, i + 1).last() == e);
        if !(chunk_overlaps(&e, cand) && e.lod > cand.lod) {
            r.push(e);
        }
        i = i + 1;
    }
    assert(sel@.subrange(0, sel.len() as int) =~= sel@);
    r
}

/// The chunks to draw this frame for the `desired` list, in its order: each desired
/// chunk, or its nearest ancestor whose mesh is done, with overlaps resolved in
/// favor of the finer chunk (see `select_step`). No two of them overlap.
pub fn select_render_chunks(level: &Level, chunks: &Vec<ChunkID>) -> (r: Vec<ChunkID>)
    requires
        lods_bounded(chunks@),
    ensures
        r@ == select_spec(*level, chunks@, chunks.len() as nat),
        disjoint(r@),
        lods_bounded(r@),
{
    let mut selected: Vec<ChunkID> = Vec::new();
    let mut n: usize = 0;
    while n < chunks.len()
        invariant
            n <= chunks.len(),
            lods_bounded(chunks@),
            selected@ == select_spec(*level, chunks@, n as nat),
            disjoint(selected@),
            lods_bounded(selected@),
        decreases chunks.len() - n,
    {
        proof {
            lemma_select_disjoint(*level, chunks@, (n + 1) as nat);
        }
        let desired = chunks[n];
        match find_substitute(level, desired) {
            None => {},
            Some(candidate) => {
                let kept = keep(&selected, candidate);
                proof {
                    lemma_keep_facts(selected@, candidate);
                }
                let mut clash = false;
                let mut j: usize = 0;
                while j < kept.len()
                    invariant
                        j <= kept.len(),
                        candidate.lod <= MAX_LOD,
                        lods_bounded(kept@),
                        clash <==> exists|i: int| 0 <= i < j && overlaps_spec(#[trigger] kept@[i], candidate),
                    decreases kept.len() - j,
                {
                    if chunk_overlaps(&kept[j], candidate) {
                        clash = true;
                    }
                    j = j + 1;
                }
                selected = kept;
                if !clash {
                    selected.push(candidate);
                }
            },
        }
        n = n + 1;
    }
    selected
}

} // verus!
