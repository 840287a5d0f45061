use vlam::cascade::{bilinear, CascadeStorage, Layout, StorageError};
use vlam::vector::Vec2;

fn display_layout() -> Layout {
    Layout { base_size: Vec2::new(1024, 1024), base_angles: 4, angular_scale: 2, num_cascades: 6 }
}

fn small_layout() -> Layout {
    Layout { base_size: Vec2::new(8, 8), base_angles: 4, angular_scale: 2, num_cascades: 3 }
}

#[test]
fn layout_of_the_display_is_sound() {
    let layout = display_layout();
    assert_eq!(layout.validate(), Ok(()));
    assert_eq!(layout.cascade_size(), 4194304);
}

#[test]
fn levels_halve_in_space_and_quadruple_in_angle() {
    let layout = display_layout();
    let expected = [(1023, 4), (511, 16), (255, 64), (127, 256), (63, 1024), (31, 4096)];
    for (cascade, (last, angles)) in expected.into_iter().enumerate() {
        assert_eq!(layout.extent(cascade as u32), Vec2::new(last, last));
        assert_eq!(layout.angles(cascade as u32), angles);
    }
}

#[test]
fn index_lays_samples_out_level_by_level() {
    let layout = display_layout();
    assert_eq!(layout.index(0, Vec2::new(0, 0), 0), 0);
    assert_eq!(layout.index(0, Vec2::new(0, 0), 3), 3);
    assert_eq!(layout.index(0, Vec2::new(0, 1), 0), 4);
    assert_eq!(layout.index(0, Vec2::new(1, 0), 0), 4096);
    assert_eq!(layout.index(0, Vec2::new(1023, 1023), 3), 4194303);
    assert_eq!(layout.index(1, Vec2::new(0, 0), 0), 4194304);
    assert_eq!(layout.index(1, Vec2::new(3, 5), 7), 4218967);
    assert_eq!(layout.index(5, Vec2::new(31, 31), 4095), 25165823);
}

#[test]
fn index_clamps_cells_to_the_last_probe_of_the_level() {
    let layout = display_layout();
    assert_eq!(layout.index(5, Vec2::new(1000, 1000), 0), 25161728);
    assert_eq!(
        layout.index(5, Vec2::new(32, 7), 9),
        layout.index(5, Vec2::new(31, 7), 9)
    );
    assert_eq!(
        layout.index(2, Vec2::new(4, u32::MAX), 1),
        layout.index(2, Vec2::new(4, 255), 1)
    );
    assert_eq!(
        layout.index(0, Vec2::new(1024, 1024), 2),
        layout.index(0, Vec2::new(1023, 1023), 2)
    );
}

#[test]
fn every_sample_of_a_small_hierarchy_has_its_own_offset() {
    let layout = small_layout();
    assert_eq!(layout.validate(), Ok(()));
    let size = layout.cascade_size();
    assert_eq!(size, 256);
    let mut seen = vec![false; 3 * 256];
    for cascade in 0..3u32 {
        let last = layout.extent(cascade);
        for x in 0..=last.x {
            for y in 0..=last.y {
                for angle in 0..layout.angles(cascade) {
                    let offset = layout.index(cascade, Vec2::new(x, y), angle);
                    assert!(offset >= cascade * size);
                    assert!(offset < (cascade + 1) * size);
                    assert!(!seen[offset as usize]);
                    seen[offset as usize] = true;
                }
            }
        }
    }
    assert!(seen.into_iter().all(|s| s));
    assert_eq!(layout.index(2, Vec2::new(1, 1), 63), 767);
}

#[test]
fn a_level_may_leave_room_unused_when_the_scale_is_gentle() {
    let layout =
        Layout { base_size: Vec2::new(8, 8), base_angles: 2, angular_scale: 1, num_cascades: 4 };
    assert_eq!(layout.validate(), Ok(()));
    assert_eq!(layout.cascade_size(), 128);
    assert_eq!(layout.angles(3), 16);
    assert_eq!(layout.extent(3), Vec2::new(0, 0));
    assert_eq!(layout.index(3, Vec2::new(5, 5), 15), 3 * 128 + 15);
    assert_eq!(layout.index(1, Vec2::new(3, 3), 3), 128 + 3 * 16 + 3 * 4 + 3);
}

#[test]
fn layouts_are_rejected_for_the_first_thing_wrong_with_them() {
    let good = small_layout();
    assert_eq!(
        Layout { num_cascades: 0, base_angles: 0, ..good }.validate(),
        Err(StorageError::NoCascades)
    );
    assert_eq!(
        Layout { base_angles: 0, angular_scale: 3, ..good }.validate(),
        Err(StorageError::NoAngles)
    );
    assert_eq!(
        Layout { angular_scale: 3, num_cascades: 40, ..good }.validate(),
        Err(StorageError::ScaleTooSteep)
    );
    assert_eq!(
        Layout { num_cascades: 33, ..good }.validate(),
        Err(StorageError::TooFewProbes)
    );
    assert_eq!(
        Layout { num_cascades: 5, ..good }.validate(),
        Err(StorageError::TooFewProbes)
    );
    assert_eq!(
        Layout { base_size: Vec2::new(8, 3), ..good }.validate(),
        Err(StorageError::TooFewProbes)
    );
    assert_eq!(Layout { num_cascades: 4, ..good }.validate(), Ok(()));
    assert_eq!(
        Layout { base_size: Vec2::new(65536, 65536), num_cascades: 1, ..good }.validate(),
        Err(StorageError::TooLarge)
    );
    assert_eq!(
        Layout { base_size: Vec2::new(u32::MAX, u32::MAX), base_angles: u32::MAX, ..good }
            .validate(),
        Err(StorageError::TooLarge)
    );
    assert_eq!(
        Layout { base_size: Vec2::new(32768, 32768), base_angles: 1, num_cascades: 4, ..good }
            .validate(),
        Err(StorageError::TooLarge)
    );
    assert_eq!(
        Layout { base_size: Vec2::new(32768, 32768), base_angles: 1, num_cascades: 3, ..good }
            .validate(),
        Ok(())
    );
}

#[test]
fn storage_starts_filled() {
    let storage = CascadeStorage::new(small_layout(), 1.0f32.to_bits(), 1.0f32.to_bits())
        .ok()
        .unwrap();
    assert_eq!(storage.len(), 768);
    assert_eq!(storage.cascade_size(), 256);
    assert_eq!(storage.layout(), small_layout());
    assert_eq!(storage.base_spacing(), 1.0f32.to_bits());
    for offset in 0..768 {
        assert_eq!(storage.read(offset), 1.0f32.to_bits());
    }
    assert_eq!(storage.get(2, Vec2::new(1, 1), 63), 1.0f32.to_bits());
}

#[test]
fn storage_is_not_built_on_an_unsound_layout() {
    let steep = Layout { angular_scale: 3, ..small_layout() };
    assert_eq!(
        CascadeStorage::new(steep, 0, 0).err(),
        Some(StorageError::ScaleTooSteep)
    );
}

#[test]
fn put_changes_the_one_sample_it_names() {
    let mut storage = CascadeStorage::new(small_layout(), 0, 0).ok().unwrap();
    storage.put(1, Vec2::new(2, 3), 5, 42);
    let offset = storage.index(1, Vec2::new(2, 3), 5);
    assert_eq!(offset, 256 + 2 * 64 + 3 * 16 + 5);
    for i in 0..768 {
        assert_eq!(storage.read(i), if i == offset { 42 } else { 0 });
    }
    assert_eq!(storage.get(1, Vec2::new(2, 3), 5), 42);
    assert_eq!(storage.get(1, Vec2::new(2, 3), 4), 0);
    assert_eq!(storage.get(0, Vec2::new(2, 3), 3), 0);
}

#[test]
fn put_and_get_agree_on_clamped_cells() {
    let mut storage = CascadeStorage::new(small_layout(), 0, 0).ok().unwrap();
    storage.put(2, Vec2::new(9, 1), 7, 11);
    assert_eq!(storage.get(2, Vec2::new(1, 1), 7), 11);
    assert_eq!(storage.get(2, Vec2::new(200, 1), 7), 11);
    assert_eq!(storage.get(2, Vec2::new(0, 1), 7), 0);
}

#[test]
fn write_replaces_a_sample_by_offset() {
    let mut storage = CascadeStorage::new(small_layout(), 0, 3).ok().unwrap();
    storage.write(767, 9);
    storage.write(0, 8);
    assert_eq!(storage.read(767), 9);
    assert_eq!(storage.read(0), 8);
    assert_eq!(storage.read(1), 3);
    assert_eq!(storage.get(2, Vec2::new(1, 1), 63), 9);
    assert_eq!(storage.len(), 768);
}

#[test]
fn bilinear_taps_surround_the_position() {
    assert_eq!(
        bilinear(Vec2::new(3, 7)),
        [Vec2::new(3, 7), Vec2::new(4, 7), Vec2::new(3, 8), Vec2::new(4, 8)]
    );
    assert_eq!(
        bilinear(Vec2::new(u32::MAX, 0)),
        [Vec2::new(u32::MAX, 0), Vec2::new(0, 0), Vec2::new(u32::MAX, 1), Vec2::new(0, 1)]
    );
}

#[test]
fn taps_past_the_last_probe_fall_on_the_last_probe() {
    let layout = small_layout();
    let taps = bilinear(Vec2::new(3, 3));
    let offsets: Vec<u32> = taps.iter().map(|tap| layout.index(1, *tap, 2)).collect();
    let corner = layout.index(1, Vec2::new(3, 3), 2);
    assert_eq!(offsets, vec![corner, corner, corner, corner]);
}
