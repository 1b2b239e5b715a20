use voxel_stream::chunk_id::{chunk_overlaps, ChunkID, IVec3};
use voxel_stream::frustum::{flood_fill, lod_anchor, lod_level_for, neighbor};
use voxel_stream::MAX_LOD;

fn id(lod: u16, x: i32, y: i32, z: i32) -> ChunkID {
    ChunkID::new(lod, IVec3::new(x, y, z))
}

fn ratio_from(full_detail_range: f32) -> impl Fn((i64, i64, i64)) -> u64 {
    move |p: (i64, i64, i64)| {
        let d = ((p.0 * p.0 + p.1 * p.1 + p.2 * p.2) as f32).sqrt();
        (d / full_detail_range).ceil() as u64
    }
}

#[test]
fn lod_grows_with_log_of_distance() {
    assert_eq!(lod_level_for(0), 0);
    assert_eq!(lod_level_for(1), 0);
    assert_eq!(lod_level_for(2), 1);
    assert_eq!(lod_level_for(3), 2);
    assert_eq!(lod_level_for(4), 2);
    assert_eq!(lod_level_for(5), 3);
    assert_eq!(lod_level_for(64), 6);
    assert_eq!(lod_level_for(65), 7);
    assert_eq!(lod_level_for(128), 7);
}

#[test]
fn lod_is_clamped_at_max_lod() {
    assert_eq!(lod_level_for(129), MAX_LOD);
    assert_eq!(lod_level_for(1 << 40), MAX_LOD);
    assert_eq!(lod_level_for(u64::MAX), 8);
}

#[test]
fn zero_budget_gives_nothing() {
    let r = flood_fill(id(0, 0, 0, 0), 0, |_c: ChunkID| true, |_p: (i64, i64, i64)| 0u64);
    assert!(r.is_empty());
}

#[test]
fn empty_world_single_chunk() {
    let r = flood_fill(id(0, 0, 0, 0), 1, |_c: ChunkID| true, ratio_from(12.0));
    assert_eq!(r, vec![id(0, 0, 0, 0)]);
}

#[test]
fn rejected_camera_chunk_stops_the_flood() {
    let r = flood_fill(id(0, 0, 0, 0), 10, |c: ChunkID| c.pos.x > 0, |_p: (i64, i64, i64)| 0u64);
    assert!(r.is_empty());
}

#[test]
fn flood_stays_inside_and_has_no_duplicates() {
    let inside = |c: ChunkID| {
        let s = 1i32 << c.lod;
        let x = c.pos.x * s;
        let y = c.pos.y * s;
        let z = c.pos.z * s;
        x.abs() <= 6 && y.abs() <= 2 && (-1..=20).contains(&z)
    };
    let r = flood_fill(id(0, 0, 0, 0), 500, inside, ratio_from(3.0));
    assert!(r.len() <= 500);
    assert_eq!(r[0], id(0, 0, 0, 0));
    for (i, a) in r.iter().enumerate() {
        assert!(inside(*a));
        assert!(a.lod <= MAX_LOD);
        for b in &r[i + 1..] {
            assert_ne!(a, b);
        }
    }
    assert!(r.iter().any(|c| c.lod > 0));
}

#[test]
fn flood_respects_the_budget() {
    let r = flood_fill(id(0, 3, -2, 1), 7, |_c: ChunkID| true, |_p: (i64, i64, i64)| 0u64);
    assert_eq!(r.len(), 7);
    assert_eq!(r[0], id(0, 3, -2, 1));
    assert_eq!(r[1], id(0, 2, -2, 1));
    assert_eq!(r[2], id(0, 4, -2, 1));
}

#[test]
fn far_neighbors_promote_to_parents() {
    // Only chunks whose even-rounded corner is the origin stay at full detail.
    let r = flood_fill(
        id(0, 0, 0, 0),
        50,
        |_c: ChunkID| true,
        |p: (i64, i64, i64)| if p == (0, 0, 0) { 0 } else { 2 },
    );
    assert_eq!(r.len(), 50);
    assert_eq!(r[0], id(0, 0, 0, 0));
    assert_eq!(r[1], id(0, 1, 0, 0));
    assert_eq!(r[2], id(0, 0, 1, 0));
    assert_eq!(r[3], id(0, 0, 0, 1));
    assert!(r[..8].iter().all(|c| c.lod == 0));
    assert!(r[8..].iter().all(|c| c.lod == 1));
    assert!(r.contains(&id(1, -1, 0, 0)));
}

#[test]
fn lod_follows_distance_in_a_view() {
    let fdr = 2.0f32;
    let ratio = ratio_from(fdr);
    let r = flood_fill(
        id(0, 0, 0, 0),
        400,
        |c: ChunkID| {
            let s = 1i32 << c.lod;
            c.pos.z * s >= -1 && c.pos.z * s <= 48 && (c.pos.x * s).abs() <= 48 && (c.pos.y * s).abs() <= 48
        },
        &ratio,
    );
    assert!(r.iter().any(|c| c.lod == 0));
    assert!(r.iter().any(|c| c.lod >= 1));
    for (i, a) in r.iter().enumerate() {
        for b in &r[i + 1..] {
            assert_ne!(a, b);
        }
    }
    let _ = chunk_overlaps(&r[0], r[r.len() - 1]);
}

#[test]
fn neighbors_in_axis_order() {
    let c = id(2, 0, 0, 0);
    assert_eq!(neighbor(c, 0), Some(id(2, -1, 0, 0)));
    assert_eq!(neighbor(c, 3), Some(id(2, 0, 1, 0)));
    assert_eq!(neighbor(c, 5), Some(id(2, 0, 0, 1)));
    assert_eq!(neighbor(id(0, i32::MAX, 0, 0), 1), None);
    assert_eq!(neighbor(id(0, 0, i32::MIN, 0), 2), None);
}

#[test]
fn anchors_round_down_to_even() {
    assert_eq!(lod_anchor(id(0, 3, -3, 4)), (2, -4, 4));
    assert_eq!(lod_anchor(id(2, 1, -1, 0)), (4, -4, 0));
}

#[test]
fn cube_lists_chunks_in_order() {
    let c = voxel_stream::frustum::cube(4, 1);
    assert_eq!(c.len(), 8);
    assert_eq!(c[0], id(1, 0, 0, 0));
    assert_eq!(c[1], id(1, 0, 0, 1));
    assert_eq!(c[2], id(1, 0, 1, 0));
    assert_eq!(c[7], id(1, 1, 1, 1));
    assert_eq!(voxel_stream::frustum::cube(3, 0).len(), 27);
    assert!(voxel_stream::frustum::cube(1, 1).is_empty());
    assert!(voxel_stream::frustum::cube(-4, 0).is_empty());
}

#[test]
fn same_inputs_give_the_same_flood() {
    let inside = |c: ChunkID| {
        let s = 1i32 << c.lod;
        (c.pos.x * s).abs() <= 10 && (c.pos.y * s).abs() <= 3 && (0..=30).contains(&(c.pos.z * s))
    };
    let a = flood_fill(id(0, 0, 0, 0), 300, inside, ratio_from(4.0));
    let b = flood_fill(id(0, 0, 0, 0), 300, inside, ratio_from(4.0));
    assert_eq!(a, b);
    assert!(a.len() > 10);
}
