use voxel_stream::mesh::instance_kind;
use voxel_stream::random::get_random;
use voxel_stream::state::{AtomicDataState, DataState};
use voxel_stream::voxel::{fill, VoxelType, FIRST_BIT};

#[test]
fn air_is_not_solid() {
    assert!(!VoxelType::Air.is_physically_solid());
    assert!(VoxelType::Stone.is_physically_solid());
    assert!(VoxelType::CrackedStone.is_physically_solid());
    assert!(VoxelType::Dirt.is_physically_solid());
    assert_eq!(VoxelType::Air.is_solid_u32(), 0);
    assert_eq!(VoxelType::Dirt.is_solid_u32(), FIRST_BIT);
    assert_eq!(FIRST_BIT, 0x8000_0000);
}

#[test]
fn texture_ids_count_from_the_first_solid_kind() {
    for face in 0..6u8 {
        assert_eq!(VoxelType::CrackedStone.texture_id(face), 0);
        assert_eq!(VoxelType::Stone.texture_id(face), 1);
        assert_eq!(VoxelType::Dirt.texture_id(face), 2);
    }
}

#[test]
fn fill_sets_every_voxel() {
    let block = fill(VoxelType::Stone);
    for x in 0..32 {
        for y in 0..32 {
            for z in 0..32 {
                assert_eq!(block[x][y][z], VoxelType::Stone);
            }
        }
    }
}

#[test]
fn rolls_pick_voxel_kinds() {
    assert_eq!(VoxelType::from_roll(0), VoxelType::Air);
    assert_eq!(VoxelType::from_roll(1), VoxelType::Stone);
    assert_eq!(VoxelType::from_roll(2), VoxelType::Dirt);
    assert_eq!(VoxelType::weighted_from_roll(0), VoxelType::Stone);
    assert_eq!(VoxelType::weighted_from_roll(3), VoxelType::Dirt);
}

#[test]
fn random_draws_stay_in_range_and_vary() {
    let mut seen = [false; 5];
    for _ in 0..400 {
        let r = get_random(0, 4);
        assert!(r <= 4);
        seen[r as usize] = true;
    }
    assert!(seen.iter().all(|s| *s));
    let mut stone = 0;
    let mut dirt = 0;
    for _ in 0..400 {
        match VoxelType::random_weighted() {
            VoxelType::Stone => stone += 1,
            VoxelType::Dirt => dirt += 1,
            other => panic!("unexpected {:?}", other),
        }
    }
    assert!(stone > 0 && dirt > stone);
    for _ in 0..50 {
        let v = VoxelType::from_random();
        assert!(v == VoxelType::Air || v == VoxelType::Stone || v == VoxelType::Dirt);
    }
    assert_eq!(get_random(7, 7), 7);
}

#[test]
fn instance_kind_packs_lod_and_texture() {
    assert_eq!(instance_kind(0, 2), 2);
    assert_eq!(instance_kind(3, 1), 0x0003_0001);
    assert_eq!(instance_kind(8, 0xffff), 0x0008_ffff);
}

#[test]
fn stage_transitions_follow_the_table() {
    assert_eq!(DataState::Dirty.try_start_generating(), Ok(DataState::Generating));
    assert_eq!(DataState::Done.try_start_generating(), Err(()));
    assert_eq!(DataState::Generating.try_start_generating(), Err(()));
    assert_eq!(DataState::GeneratingDirty.try_start_generating(), Err(()));
    assert_eq!(DataState::Generating.finish_generating(), DataState::Done);
    assert_eq!(DataState::GeneratingDirty.finish_generating(), DataState::Dirty);
    assert_eq!(DataState::Done.finish_generating(), DataState::Done);
    assert_eq!(DataState::Dirty.finish_generating(), DataState::Dirty);
    assert_eq!(DataState::Done.mark_dirty(), DataState::Dirty);
    assert_eq!(DataState::Generating.mark_dirty(), DataState::GeneratingDirty);
    assert_eq!(DataState::Dirty.mark_dirty(), DataState::Dirty);
    assert_eq!(DataState::GeneratingDirty.mark_dirty(), DataState::GeneratingDirty);
}

#[test]
fn state_codes_round_trip() {
    for s in [DataState::Done, DataState::Dirty, DataState::Generating, DataState::GeneratingDirty] {
        assert_eq!(DataState::from_code(s.code()), Some(s));
    }
    assert_eq!(DataState::Done.code(), 0);
    assert_eq!(DataState::GeneratingDirty.code(), 3);
    assert_eq!(DataState::from_code(4), None);
}

#[test]
fn atomic_state_runs_the_same_machine() {
    let s = AtomicDataState::new(DataState::Done);
    assert!(s.is_done());
    assert_eq!(s.try_start_generating(), Err(()));
    s.mark_dirty();
    assert_eq!(s.load(), DataState::Dirty.code());
    assert_eq!(s.try_start_generating(), Ok(()));
    assert_eq!(s.load(), DataState::Generating.code());
    assert_eq!(s.try_start_generating(), Err(()));
    s.mark_dirty();
    assert_eq!(s.load(), DataState::GeneratingDirty.code());
    s.finish_generating();
    assert_eq!(s.load(), DataState::Dirty.code());
    assert_eq!(s.try_start_generating(), Ok(()));
    s.finish_generating();
    assert!(s.is_done());
    s.finish_generating();
    assert!(s.is_done());
}

#[test]
fn every_update_sequence_stays_legal() {
    let s = AtomicDataState::new(DataState::Generating);
    let ops = [0u8, 1, 2, 1, 0, 0, 2, 1, 2, 0, 1, 1, 2];
    for op in ops {
        match op {
            0 => s.mark_dirty(),
            1 => s.finish_generating(),
            _ => {
                let _ = s.try_start_generating();
            }
        }
        assert!(DataState::from_code(s.load()).is_some());
    }
}
