use std::collections::HashSet;
use vstd::arithmetic::power2::{lemma2_to64, pow2};
use vstd::prelude::*;

use crate::chunk_id::{key_of, shr_floor, shr_spec, ChunkID, IVec3, LodLevel};
use crate::MAX_LOD;

verus! {

broadcast use vstd::std_specs::hash::group_hash_axioms;

/// The level of detail for a chunk whose distance from the camera is `ratio`
/// full-detail ranges, rounded up: `ceil(log2(ratio))`, at most `MAX_LOD`.
pub open spec fn lod_for_spec(ratio: u64) -> LodLevel {
    if ratio <= 1 {
        0
    } else if ratio <= 2 {
        1
    } else if ratio <= 4 {
        2
    } else if ratio <= 8 {
        3
    } else if ratio <= 16 {
        4
    } else if ratio <= 32 {
        5
    } else if ratio <= 64 {
        6
    } else if ratio <= 128 {
        7
    } else {
        MAX_LOD
    }
}

/// The level of detail at a distance of `ratio` full-detail ranges (rounded up).
pub fn lod_level_for(ratio: u64) -> (r: LodLevel)
    ensures
        r == lod_for_spec(ratio),
        r <= MAX_LOD,
        r < MAX_LOD ==> ratio <= pow2(r as nat),
        r > 0 ==> ratio > pow2((r - 1) as nat),
{
    proof {
        lemma2_to64();
    }
    if ratio <= 1 {
        0
    } else if ratio <= 2 {
        1
    } else if ratio <= 4 {
        2
    } else if ratio <= 8 {
        3
    } else if ratio <= 16 {
        4
    } else if ratio <= 32 {
        5
    } else if ratio <= 64 {
        6
    } else if ratio <= 128 {
        7
    } else {
        MAX_LOD
    }
}

/// The axial neighbor of `c` in direction `d` (-x, +x, -y, +y, -z, +z), if its
/// position is representable.
pub open spec fn neighbor_spec(c: ChunkID, d: u8) -> Option<ChunkID> {
    let p = c.pos;
    let q = if d == 0 {
        (p.x - 1, p.y as int, p.z as int)
    } else if d == 1 {
        (p.x + 1, p.y as int, p.z as int)
    } else if d == 2 {
        (p.x as int, p.y - 1, p.z as int)
    } else if d == 3 {
        (p.x as int, p.y + 1, p.z as int)
    } else if d == 4 {
        (p.x as int, p.y as int, p.z - 1)
    } else {
        (p.x as int, p.y as int, p.z + 1)
    };
    if i32::MIN <= q.0 <= i32::MAX && i32::MIN <= q.1 <= i32::MAX && i32::MIN <= q.2 <= i32::MAX {
        Some(ChunkID { lod: c.lod, pos: IVec3 { x: q.0 as i32, y: q.1 as i32, z: q.2 as i32 } })
    } else {
        None
    }
}

pub fn neighbor(c: ChunkID, d: u8) -> (r: Option<ChunkID>)
    requires
        d < 6,
    ensures
        r == neighbor_spec(c, d),
{
    let p = c.pos;
    if d == 0 {
        if p.x == i32::MIN {
            return None;
        }
        Some(ChunkID { lod: c.lod, pos: IVec3 { x: p.x - 1, y: p.y, z: p.z } })
    } else if d == 1 {
        if p.x == i32::MAX {
            return None;
        }
        Some(ChunkID { lod: c.lod, pos: IVec3 { x: p.x + 1, y: p.y, z: p.z } })
    } else if d == 2 {
        if p.y == i32::MIN {
            return None;
        }
        Some(ChunkID { lod: c.lod, pos: IVec3 { x: p.x, y: p.y - 1, z: p.z } })
    } else if d == 3 {
        if p.y == i32::MAX {
            return None;
        }
        Some(ChunkID { lod: c.lod, pos: IVec3 { x: p.x, y: p.y + 1, z: p.z } })
    } else if d == 4 {
        if p.z == i32::MIN {
            return None;
        }
        Some(ChunkID { lod: c.lod, pos: IVec3 { x: p.x, y: p.y, z: p.z - 1 } })
    } else {
        if p.z == i32::MAX {
            return None;
        }
        Some(ChunkID { lod: c.lod, pos: IVec3 { x: p.x, y: p.y, z: p.z + 1 } })
    }
}

/// The point at which the level of detail of `c` is measured: its corner in chunks
/// of level zero, `pos << lod`, each coordinate with its lowest bit cleared.
pub open spec fn anchor_spec(c: ChunkID) -> (i64, i64, i64) {
    let s = pow2(c.lod as nat) as int;
    (((c.pos.x * s) as i64) & !1i64, ((c.pos.y * s) as i64) & !1i64, ((c.pos.z * s) as i64) & !1i64)
}

pub fn lod_anchor(c: ChunkID) -> (r: (i64, i64, i64))
    requires
        c.lod <= MAX_LOD,
    ensures
        r == anchor_spec(c),
{
    let s = c.size() as i64;
    let x = c.pos.x as i64;
    let y = c.pos.y as i64;
    let z = c.pos.z as i64;
    assert(-0x100_0000_0000 <= x * s <= 0x100_0000_0000) by (nonlinear_arith)
        requires
            1 <= s <= 256,
            i32::MIN <= x <= i32::MAX,
    ;
    assert(-0x100_0000_0000 <= y * s <= 0x100_0000_0000) by (nonlinear_arith)
        requires
            1 <= s <= 256,
            i32::MIN <= y <= i32::MAX,
    ;
    assert(-0x100_0000_0000 <= z * s <= 0x100_0000_0000) by (nonlinear_arith)
        requires
            1 <= s <= 256,
            i32::MIN <= z <= i32::MAX,
    ;
    ((x * s) & !1i64, (y * s) & !1i64, (z * s) & !1i64)
}

/// `a` comes before `b` in x, then y, then z order.
pub open spec fn lex_less(a: IVec3, b: (int, int, int)) -> bool {
    a.x < b.0 || (a.x == b.0 && (a.y < b.1 || (a.y == b.1 && a.z < b.2)))
}

/// `c` is one of the chunks at level `lod` with all coordinates in `0..n`.
pub open spec fn in_cube(c: ChunkID, lod: LodLevel, n: int) -> bool {
    c.lod == lod && 0 <= c.pos.x < n && 0 <= c.pos.y < n && 0 <= c.pos.z < n
}

/// The chunks at `lod_level` that cover a cube of `edges` chunks of level zero
/// from the origin: coordinates `0..(edges >> lod_level)` on each axis, in x, then y,
/// then z order.
pub fn cube(edges: i32, lod_level: LodLevel) -> (r: Vec<ChunkID>)
    requires
        lod_level < 32,
    ensures
        forall|c: ChunkID| r@.contains(c) <==> in_cube(c, lod_level, shr_spec(edges as int, lod_level as nat)),
        forall|i: int, j: int| 0 <= i < j < r.len() ==> lex_less(r[i].pos, (r[j].pos.x as int, r[j].pos.y as int, r[j].pos.z as int)),
{
    let n = shr_floor(edges, lod_level as u32);
    let ghost ni = n as int;
    let mut chunk_ids: Vec<ChunkID> = Vec::new();
    let mut x: i32 = 0;
    while x < n
        invariant
            0 <= x,
            n > 0 ==> x <= n,
            ni == n,
            forall|c: ChunkID| chunk_ids@.contains(c) <==> in_cube(c, lod_level, ni) && lex_less(c.pos, (x as int, 0, 0)),
            forall|i: int, j: int|
                0 <= i < j < chunk_ids.len() ==> lex_less(chunk_ids[i].pos, (chunk_ids[j].pos.x as int, chunk_ids[j].pos.y as int, chunk_ids[j].pos.z as int)),
            forall|i: int| 0 <= i < chunk_ids.len() ==> lex_less(#[trigger] chunk_ids[i].pos, (x as int, 0, 0)),
        decreases n - x,
    {
        let mut y: i32 = 0;
        while y < n
            invariant
                0 <= x < n,
                0 <= y <= n,
                ni == n,
                forall|c: ChunkID| chunk_ids@.contains(c) <==> in_cube(c, lod_level, ni) && lex_less(c.pos, (x as int, y as int, 0)),
                forall|i: int, j: int|
                    0 <= i < j < chunk_ids.len() ==> lex_less(chunk_ids[i].pos, (chunk_ids[j].pos.x as int, chunk_ids[j].pos.y as int, chunk_ids[j].pos.z as int)),
                forall|i: int| 0 <= i < chunk_ids.len() ==> lex_less(#[trigger] chunk_ids[i].pos, (x as int, y as int, 0)),
            decreases n - y,
        {
            let mut z: i32 = 0;
            while z < n
                invariant
                    0 <= x < n,
                    0 <= y < n,
                    0 <= z <= n,
                    ni == n,
                    forall|c: ChunkID| chunk_ids@.contains(c) <==> in_cube(c, lod_level, ni) && lex_less(c.pos, (x as int, y as int, z as int)),
                    forall|i: int, j: int|
                        0 <= i < j < chunk_ids.len() ==> lex_less(chunk_ids[i].pos, (chunk_ids[j].pos.x as int, chunk_ids[j].pos.y as int, chunk_ids[j].pos.z as int)),
                    forall|i: int| 0 <= i < chunk_ids.len() ==> lex_less(#[trigger] chunk_ids[i].pos, (x as int, y as int, z as int)),
                decreases n - z,
            {
                let c = ChunkID::new(lod_level, IVec3::new(x, y, z));
                let ghost before = chunk_ids@;
                chunk_ids.push(c);
                assert forall|d: ChunkID| chunk_ids@.contains(d) <==> before.contains(d) || d == c by {
                    if chunk_ids@.contains(d) {
                        let k = choose|k: int| 0 <= k < chunk_ids.len() && chunk_ids@[k] == d;
                        if k < before.len() {
                            assert(before[k] == d);
                        }
                    }
                    if before.contains(d) {
                        let k = choose|k: int| 0 <= k < before.len() && before[k] == d;
                        assert(chunk_ids@[k] == d);
                    }
                    if d == c {
                        assert(chunk_ids@[before.len() as int] == d);
                    }
                }
                z = z + 1;
            }
            y = y + 1;
        }
        x = x + 1;
    }
    chunk_ids
}

/// Everything the flood fill has queued but not yet examined.
pub open spec fn pending(cand: Seq<ChunkID>, head: int, next: Seq<ChunkID>) -> Seq<ChunkID> {
    cand.subrange(head, cand.len() as int) + next
}

/// Inserting an element that a duplicate-free sequence lacks, between two of its
/// parts, keeps it free of duplicates.
proof fn lemma_insert_fresh(a: Seq<ChunkID>, b: Seq<ChunkID>, x: ChunkID)
    requires
        (a + b).no_duplicates(),
        !(a + b).contains(x),
    ensures
        (a.push(x) + b).no_duplicates(),
        (a.push(x) + b).len() == (a + b).len() + 1,
{
    let s = a.push(x) + b;
    let t = a + b;
    assert forall|i: int, j: int| 0 <= i < s.len() && 0 <= j < s.len() && i != j implies s[i]
        != s[j] by {
        let ti = if i < a.len() { i } else { i - 1 };
        let tj = if j < a.len() { j } else { j - 1 };
        if i == a.len() {
            assert(t[tj] == s[j]);
        } else if j == a.len() {
            assert(t[ti] == s[i]);
        } else {
            assert(t[ti] == s[i]);
            assert(t[tj] == s[j]);
        }
    }
}

/// What `test` answers for `c`, for a closure that is a function.
pub open spec fn accepted<F: Fn(ChunkID) -> bool>(test: F, c: ChunkID) -> bool {
    choose|b: bool| test.ensures((c,), b)
}

/// What `ratio` answers for `p`, for a closure that is a function.
pub open spec fn ratio_of<R: Fn((i64, i64, i64)) -> u64>(ratio: R, p: (i64, i64, i64)) -> u64 {
    choose|v: u64| ratio.ensures((p,), v)
}

/// The frustum test gives one answer per chunk.
pub open spec fn test_is_function<F: Fn(ChunkID) -> bool>(test: F) -> bool {
    forall|c: ChunkID, b1: bool, b2: bool| test.ensures((c,), b1) && test.ensures((c,), b2) ==> b1 == b2
}

/// The distance ratio gives one answer per point.
pub open spec fn ratio_is_function<R: Fn((i64, i64, i64)) -> u64>(ratio: R) -> bool {
    forall|p: (i64, i64, i64), v1: u64, v2: u64| ratio.ensures((p,), v1) && ratio.ensures((p,), v2) ==> v1 == v2
}

proof fn lemma_accepted<F: Fn(ChunkID) -> bool>(test: F, c: ChunkID, b: bool)
    requires
        test_is_function(test),
        test.ensures((c,), b),
    ensures
        accepted(test, c) == b,
{
}

proof fn lemma_ratio_of<R: Fn((i64, i64, i64)) -> u64>(ratio: R, p: (i64, i64, i64), v: u64)
    requires
        ratio_is_function(ratio),
        ratio.ensures((p,), v),
    ensures
        ratio_of(ratio, p) == v,
{
}

/// The flood's state: accepted chunks, keys of queued chunks, the current
/// frontier and the next-level frontier.
pub type FloodState = (Seq<ChunkID>, Set<u128>, Seq<ChunkID>, Seq<ChunkID>);

/// The state after the accepted `chunk` looks at its neighbor on side `d`: a new
/// neighbor at the chunk's level joins the frontier; one that wants a coarser level
/// sends its parent, if new, to the next-level frontier.
pub open spec fn visit<R: Fn((i64, i64, i64)) -> u64>(s: FloodState, chunk: ChunkID, d: u8, ratio: R) -> FloodState {
    match neighbor_spec(chunk, d) {
        None => s,
        Some(nb) => if s.1.contains(key_of(nb)) {
            s
        } else {
            let q = s.1.insert(key_of(nb));
            let lod = lod_for_spec(ratio_of(ratio, anchor_spec(nb)));
            if lod > chunk.lod {
                let p = nb.parent_spec();
                if q.contains(key_of(p)) {
                    (s.0, q, s.2, s.3)
                } else {
                    (s.0, q.insert(key_of(p)), s.2, s.3.push(p))
                }
            } else if lod == chunk.lod {
                (s.0, q, s.2.push(nb), s.3)
            } else {
                (s.0, q, s.2, s.3)
            }
        },
    }
}

/// The state after `chunk` looked at its neighbors on sides `0..d`.
pub open spec fn visit_upto<R: Fn((i64, i64, i64)) -> u64>(s: FloodState, chunk: ChunkID, d: nat, ratio: R) -> FloodState
    decreases d,
{
    if d == 0 {
        s
    } else {
        visit(visit_upto(s, chunk, (d - 1) as nat, ratio), chunk, (d - 1) as u8, ratio)
    }
}

/// The accepted chunks once the flood from state `s` ends, taking at most `fuel`
/// chunks off the frontiers.
pub open spec fn flood_run<F: Fn(ChunkID) -> bool, R: Fn((i64, i64, i64)) -> u64>(
    s: FloodState,
    max_chunks: usize,
    fuel: nat,
    test: F,
    ratio: R,
) -> Seq<ChunkID>
    decreases fuel,
{
    if fuel == 0 {
        s.0
    } else {
        let s1 = if s.2.len() == 0 {
            (s.0, s.1, s.3, Seq::<ChunkID>::empty())
        } else {
            s
        };
        if s1.2.len() == 0 {
            s1.0
        } else {
            let chunk = s1.2[0];
            let s2 = (s1.0, s1.1, s1.2.drop_first(), s1.3);
            if accepted(test, chunk) {
                let s3 = (s2.0.push(chunk), s2.1, s2.2, s2.3);
                if s3.0.len() >= max_chunks {
                    s3.0
                } else {
                    flood_run(visit_upto(s3, chunk, 6, ratio), max_chunks, (fuel - 1) as nat, test, ratio)
                }
            } else {
                flood_run(s2, max_chunks, (fuel - 1) as nat, test, ratio)
            }
        }
    }
}

/// The chunks the flood fill returns, in order: the flood from `base` alone, with
/// enough fuel that only the frontiers or `max_chunks` end it.
pub open spec fn flood_spec<F: Fn(ChunkID) -> bool, R: Fn((i64, i64, i64)) -> u64>(
    base: ChunkID,
    max_chunks: usize,
    test: F,
    ratio: R,
) -> Seq<ChunkID> {
    if max_chunks == 0 {
        Seq::empty()
    } else {
        flood_run(
            (Seq::empty(), Set::empty().insert(key_of(base)), seq![base], Seq::empty()),
            max_chunks,
            (6 * max_chunks + 2) as nat,
            test,
            ratio,
        )
    }
}

pub open spec fn model(chunks: Seq<ChunkID>, queued: Set<u128>, cand: Seq<ChunkID>, head: int, next: Seq<ChunkID>) -> FloodState {
    (chunks, queued, cand.subrange(head, cand.len() as int), next)
}

/// The chunks a view needs, in breadth-first order from `base`.
///
/// The flood starts at `base` (the camera's chunk at level zero) and visits axial
/// neighbors (those whose position fits in 32 bits). A visited chunk that `in_frustum` rejects is dropped and not expanded.
/// For an accepted chunk, each neighbor not seen before gets its level of detail
/// from `distance_ratio` at `lod_anchor(neighbor)`: at the chunk's level the
/// neighbor joins the current frontier; at a coarser level its parent joins the
/// next-level frontier, once. When the current frontier runs dry the next-level
/// one takes its place. The flood stops when both are empty or `max_chunks`
/// chunks were accepted.
pub fn flood_fill<F, R>(base: ChunkID, max_chunks: usize, in_frustum: F, distance_ratio: R) -> (r:
    Vec<ChunkID>) where F: Fn(ChunkID) -> bool, R: Fn((i64, i64, i64)) -> u64
    requires
        base.lod == 0,
        forall|c: ChunkID| #[trigger] in_frustum.requires((c,)),
        forall|p: (i64, i64, i64)| #[trigger] distance_ratio.requires((p,)),
        test_is_function(in_frustum),
        ratio_is_function(distance_ratio),
    ensures
        r@ == flood_spec(base, max_chunks, in_frustum, distance_ratio),
        r.len() <= max_chunks,
        r@.no_duplicates(),
        forall|i: int| 0 <= i < r.len() ==> #[trigger] in_frustum.ensures((r[i],), true),
        forall|i: int| 0 <= i < r.len() ==> #[trigger] r[i].lod <= MAX_LOD,
        max_chunks == 0 ==> r.len() == 0,
        r.len() > 0 ==> r[0] == base,
        max_chunks > 0 && r.len() == 0 ==> in_frustum.ensures((base,), false),
{
    let mut chunks: Vec<ChunkID> = Vec::new();
    if max_chunks == 0 {
        return chunks;
    }
    let mut queued: HashSet<u128> = HashSet::new();
    let mut cand: Vec<ChunkID> = Vec::new();
    let mut next: Vec<ChunkID> = Vec::new();
    let mut head: usize = 0;
    cand.push(base);
    queued.insert(base.key());
    let ghost mut fuel: nat = (6 * max_chunks + 2) as nat;
    assert(model(chunks@, queued@, cand@, head as int, next@) =~= (
    Seq::empty(), Set::empty().insert(key_of(base)), seq![base], Seq::empty())) by {
        assert(cand@.subrange(0, 1) =~= seq![base]);
        assert(queued@ =~= Set::empty().insert(key_of(base)));
    }
    loop
        invariant_except_break
            chunks.len() < max_chunks,
            flood_run(model(chunks@, queued@, cand@, head as int, next@), max_chunks, fuel, in_frustum, distance_ratio)
                == flood_spec(base, max_chunks, in_frustum, distance_ratio),
            fuel >= 6 * (max_chunks - chunks.len()) + (cand.len() - head) + next.len() + 1,
        invariant
            test_is_function(in_frustum),
            ratio_is_function(distance_ratio),
            forall|c: ChunkID| #[trigger] in_frustum.requires((c,)),
            forall|p: (i64, i64, i64)| #[trigger] distance_ratio.requires((p,)),
            chunks.len() <= max_chunks,
            head <= cand.len(),
            chunks@.no_duplicates(),
            pending(cand@, head as int, next@).no_duplicates(),
            forall|j: int|
                0 <= j < pending(cand@, head as int, next@).len() ==> !chunks@.contains(
                    #[trigger] pending(cand@, head as int, next@)[j],
                ),
            forall|i: int|
                0 <= i < chunks.len() ==> queued@.contains(key_of(#[trigger] chunks[i])),
            forall|j: int|
                0 <= j < pending(cand@, head as int, next@).len() ==> queued@.contains(
                    key_of(#[trigger] pending(cand@, head as int, next@)[j]),
                ),
            forall|i: int| 0 <= i < chunks.len() ==> #[trigger] in_frustum.ensures((chunks[i],), true),
            forall|i: int| 0 <= i < chunks.len() ==> #[trigger] chunks[i].lod <= MAX_LOD,
            forall|j: int|
                0 <= j < pending(cand@, head as int, next@).len() ==> #[trigger] pending(
                    cand@,
                    head as int,
                    next@,
                )[j].lod <= MAX_LOD,
            chunks.len() > 0 ==> chunks[0] == base,
            chunks.len() == 0 ==> (head == 0 && cand@ == seq![base] && next.len() == 0) || (
            in_frustum.ensures((base,), false) && pending(cand@, head as int, next@).len() == 0),
        ensures
            chunks@ == flood_spec(base, max_chunks, in_frustum, distance_ratio),
            chunks.len() <= max_chunks,
            chunks@.no_duplicates(),
            forall|i: int| 0 <= i < chunks.len() ==> #[trigger] in_frustum.ensures((chunks[i],), true),
            forall|i: int| 0 <= i < chunks.len() ==> #[trigger] chunks[i].lod <= MAX_LOD,
            chunks.len() > 0 ==> chunks[0] == base,
            chunks.len() == 0 ==> in_frustum.ensures((base,), false),
        decreases 6 * (max_chunks - chunks.len()) + (cand.len() - head) + next.len(),
    {
        let ghost m0 = model(chunks@, queued@, cand@, head as int, next@);
        let ghost f0 = fuel;
        if head == cand.len() {
            if next.len() == 0 {
                assert(m0.2.len() == 0);
                break;
            }
            assert(pending(cand@, head as int, next@) =~= pending(next@, 0, Seq::empty()));
            cand = next;
            next = Vec::new();
            head = 0;
        }
        let ghost s1 = model(chunks@, queued@, cand@, head as int, next@);
        assert(s1 == (if m0.2.len() == 0 {
            (m0.0, m0.1, m0.3, Seq::<ChunkID>::empty())
        } else {
            m0
        })) by {
            if m0.2.len() == 0 {
                assert(cand@.subrange(0, cand.len() as int) =~= cand@);
            }
        }
        let chunk = cand[head];
        let ghost before = pending(cand@, head as int, next@);
        assert(before[0] == chunk);
        head = head + 1;
        assert(pending(cand@, head as int, next@) =~= before.drop_first());
        let ghost s2 = model(chunks@, queued@, cand@, head as int, next@);
        assert(s2 =~= (s1.0, s1.1, s1.2.drop_first(), s1.3));
        assert(s1.2[0] == chunk);
        let inside = in_frustum(chunk);
        proof {
            lemma_accepted(in_frustum, chunk, inside);
        }
        if !inside {
            proof {
                fuel = (f0 - 1) as nat;
            }
        } else {
            chunks.push(chunk);
            let ghost s3 = model(chunks@, queued@, cand@, head as int, next@);
            assert(s3 =~= (s2.0.push(chunk), s2.1, s2.2, s2.3));
            if chunks.len() >= max_chunks {
                break;
            }
            let ghost budget = (cand.len() - head) + next.len() + 6;
            let mut d: u8 = 0;
            while d < 6
                invariant
                    forall|c: ChunkID| #[trigger] in_frustum.requires((c,)),
                    forall|p: (i64, i64, i64)| #[trigger] distance_ratio.requires((p,)),
                    chunks.len() < max_chunks,
                    head <= cand.len(),
                    chunk.lod <= MAX_LOD,
                    d <= 6,
                    (cand.len() - head) + next.len() + 6 - d <= budget,
                    chunks@.no_duplicates(),
                    pending(cand@, head as int, next@).no_duplicates(),
                    forall|j: int|
                0 <= j < pending(cand@, head as int, next@).len() ==> !chunks@.contains(
                    #[trigger] pending(cand@, head as int, next@)[j],
                ),
                    forall|i: int|
                        0 <= i < chunks.len() ==> queued@.contains(key_of(#[trigger] chunks[i])),
                    forall|j: int|
                        0 <= j < pending(cand@, head as int, next@).len() ==> queued@.contains(
                            key_of(#[trigger] pending(cand@, head as int, next@)[j]),
                        ),
                    forall|i: int|
                        0 <= i < chunks.len() ==> #[trigger] in_frustum.ensures((chunks[i],), true),
                    forall|i: int| 0 <= i < chunks.len() ==> #[trigger] chunks[i].lod <= MAX_LOD,
                    forall|j: int|
                        0 <= j < pending(cand@, head as int, next@).len() ==> #[trigger] pending(
                            cand@,
                            head as int,
                            next@,
                        )[j].lod <= MAX_LOD,
                    chunks.len() > 0,
                    chunks[0] == base,
                    test_is_function(in_frustum),
                    ratio_is_function(distance_ratio),
                    model(chunks@, queued@, cand@, head as int, next@) == visit_upto(s3, chunk, d as nat, distance_ratio),
                decreases 6 - d,
            {
                let ghost sd = model(chunks@, queued@, cand@, head as int, next@);
                if let Some(nb) = neighbor(chunk, d) {
                    let ghost q1 = queued@;
                    if queued.insert(nb.key()) {
                        let anchor = lod_anchor(nb);
                        let ratio = distance_ratio(anchor);
                        proof {
                            lemma_ratio_of(distance_ratio, anchor, ratio);
                        }
                        let lod = lod_level_for(ratio);
                        if lod > chunk.lod {
                            let parent = nb.parent();
                            let ghost q0 = queued@;
                            if queued.insert(parent.key()) {
                                let ghost old_pending = pending(cand@, head as int, next@);
                                assert(!old_pending.contains(parent)) by {
                                    if old_pending.contains(parent) {
                                        let j = choose|j: int|
                                            0 <= j < old_pending.len() && old_pending[j] == parent;
                                        assert(q0.contains(key_of(old_pending[j])));
                                    }
                                }
                                assert(!chunks@.contains(parent)) by {
                                    if chunks@.contains(parent) {
                                        let i = choose|i: int|
                                            0 <= i < chunks.len() && chunks[i] == parent;
                                        assert(q0.contains(key_of(chunks[i])));
                                    }
                                }
                                proof {
                                    lemma_insert_fresh(old_pending, Seq::empty(), parent);
                                    assert(old_pending + Seq::<ChunkID>::empty() =~= old_pending);
                                    assert(old_pending.push(parent) + Seq::<ChunkID>::empty()
                                        =~= old_pending.push(parent));
                                }
                                next.push(parent);
                                let ghost now = pending(cand@, head as int, next@);
                                assert(now =~= old_pending.push(parent));
                                assert forall|j: int| 0 <= j < now.len() implies !chunks@.contains(
                                    #[trigger] now[j],
                                ) && queued@.contains(key_of(now[j])) && now[j].lod <= MAX_LOD by {
                                    if j < old_pending.len() {
                                        assert(now[j] == old_pending[j]);
                                    }
                                }
                            }
                        } else if lod == chunk.lod {
                            let ghost old_pending = pending(cand@, head as int, next@);
                            let ghost old_cand = cand@;
                            assert(!old_pending.contains(nb)) by {
                                if old_pending.contains(nb) {
                                    let j = choose|j: int|
                                        0 <= j < old_pending.len() && old_pending[j] == nb;
                                    assert(q1.contains(key_of(old_pending[j])));
                                }
                            }
                            assert(!chunks@.contains(nb)) by {
                                if chunks@.contains(nb) {
                                    let i = choose|i: int| 0 <= i < chunks.len() && chunks[i] == nb;
                                    assert(q1.contains(key_of(chunks[i])));
                                }
                            }
                            let ghost sub = old_cand.subrange(head as int, old_cand.len() as int);
                            proof {
                                lemma_insert_fresh(sub, next@, nb);
                            }
                            cand.push(nb);
                            let ghost now = pending(cand@, head as int, next@);
                            assert(now =~= sub.push(nb) + next@);
                            assert(old_pending =~= sub + next@);
                            assert forall|j: int| 0 <= j < now.len() implies !chunks@.contains(
                                #[trigger] now[j],
                            ) && queued@.contains(key_of(now[j])) && now[j].lod <= MAX_LOD by {
                                if j < sub.len() {
                                    assert(now[j] == old_pending[j]);
                                } else if j > sub.len() {
                                    assert(now[j] == old_pending[j - 1]);
                                }
                            }
                        }
                    }
                }
                proof {
                    let now = model(chunks@, queued@, cand@, head as int, next@);
                    assert(now =~= visit(sd, chunk, d, distance_ratio));
                }
                d = d + 1;
            }
            proof {
                fuel = (f0 - 1) as nat;
            }
        }
    }
    chunks
}

} // verus!
