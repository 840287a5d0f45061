use vlam::cascade::Layout;
use vlam::update::{pick_bucket, pixel_draw, Progress};
use vlam::utils::pcg3d;
use vlam::vector::{Vec2, Vec3};

fn display_layout() -> Layout {
    Layout { base_size: Vec2::new(1024, 1024), base_angles: 4, angular_scale: 2, num_cascades: 6 }
}

#[test]
fn children_are_numbered_after_their_parent() {
    let layout = display_layout();
    assert_eq!(layout.child_bucket(0, 0, 0), 0);
    assert_eq!(layout.child_bucket(0, 0, 3), 3);
    assert_eq!(layout.child_bucket(1, 3, 2), 14);
    assert_eq!(layout.child_bucket(2, 14, 1), 57);
    assert_eq!(layout.child_bucket(5, 1023, 3), 4095);
}

#[test]
fn a_descent_stays_within_each_level() {
    let layout = display_layout();
    for choices in [[3u32, 3, 3, 3, 3, 3], [0, 0, 0, 0, 0, 0], [1, 2, 3, 0, 2, 1]] {
        let mut bucket = 0;
        for level in 0..6u32 {
            bucket = layout.child_bucket(level, bucket, choices[level as usize]);
            assert!(bucket < layout.angles(level));
        }
    }
}

#[test]
fn scatter_retraces_the_descent() {
    let layout = display_layout();
    let choices = [1u32, 2, 3, 0, 2, 1];
    let mut path = Vec::new();
    let mut bucket = 0;
    for level in 0..6u32 {
        bucket = layout.child_bucket(level, bucket, choices[level as usize]);
        path.push(bucket);
    }
    for level in 0..6u32 {
        assert_eq!(layout.scatter_bucket(bucket, level), path[level as usize]);
    }
}

#[test]
fn scatter_drops_two_bits_per_level() {
    let layout = display_layout();
    assert_eq!(layout.scatter_bucket(2748, 5), 2748);
    assert_eq!(layout.scatter_bucket(2748, 4), 687);
    assert_eq!(layout.scatter_bucket(2748, 3), 171);
    assert_eq!(layout.scatter_bucket(2748, 0), 2);
    assert_eq!(layout.scatter_bucket(4095, 0), 3);
}

#[test]
fn segments_grow_with_the_angular_resolution() {
    let layout = display_layout();
    let lengths: Vec<u32> = (0..6).map(|level| layout.segment_length(level)).collect();
    assert_eq!(lengths, vec![2, 6, 24, 96, 384, 1536]);
    let gentle =
        Layout { base_size: Vec2::new(8, 8), base_angles: 2, angular_scale: 1, num_cascades: 4 };
    let lengths: Vec<u32> = (0..4).map(|level| gentle.segment_length(level)).collect();
    assert_eq!(lengths, vec![2, 6, 12, 24]);
}

#[test]
fn segments_of_a_deep_hierarchy_fit_a_word() {
    let deep = Layout {
        base_size: Vec2::new(1 << 14, 1 << 14),
        base_angles: 2,
        angular_scale: 1,
        num_cascades: 7,
    };
    assert_eq!(deep.validate(), Ok(()));
    assert_eq!(deep.segment_length(6), 192);
}

#[test]
fn the_first_bucket_whose_cumulative_weight_exceeds_the_draw_is_picked() {
    let cumulative = vec![10, 20, 30];
    assert_eq!(pick_bucket(&cumulative, 0), 0);
    assert_eq!(pick_bucket(&cumulative, 9), 0);
    assert_eq!(pick_bucket(&cumulative, 15), 1);
    assert_eq!(pick_bucket(&cumulative, 25), 2);
    assert_eq!(pick_bucket(&cumulative, 99), 3);
}

#[test]
fn a_draw_equal_to_a_cumulative_weight_goes_to_the_next_bucket() {
    let cumulative = vec![10, 20, 30];
    assert_eq!(pick_bucket(&cumulative, 10), 1);
    assert_eq!(pick_bucket(&cumulative, 20), 2);
    assert_eq!(pick_bucket(&cumulative, 30), 3);
}

#[test]
fn buckets_of_no_weight_are_never_picked() {
    assert_eq!(pick_bucket(&vec![0, 0, 5], 0), 2);
    assert_eq!(pick_bucket(&vec![7, 7, 7], 3), 0);
    assert_eq!(pick_bucket(&vec![7, 7, 7], 7), 3);
    assert_eq!(pick_bucket(&vec![], 7), 0);
}

#[test]
fn weights_as_keys_pick_as_the_numbers_do() {
    let weights = [0.1f32, 0.4, 0.3, 0.2];
    let cumulative: Vec<u32> = vec![0.1f32, 0.5, 0.8].into_iter().map(f32::to_bits).collect();
    for (draw, expected) in [(0.0f32, 0), (0.05, 0), (0.1, 1), (0.45, 1), (0.5, 2), (0.79, 2), (0.8, 3), (1.0, 3)] {
        assert_eq!(pick_bucket(&cumulative, draw.to_bits()), expected);
    }
    assert_eq!(weights.len(), cumulative.len() + 1);
}

#[test]
fn a_pixel_draws_from_the_hash_of_its_place_and_turn() {
    assert_eq!(pixel_draw(Vec2::new(10, 20), 5, 0, 6), 2270111011);
    assert_eq!(
        pixel_draw(Vec2::new(10, 20), 5, 0, 6),
        pcg3d(Vec3::new(10, 20, 35)).x
    );
    assert_eq!(
        pixel_draw(Vec2::new(1, 2), 0, 3, 6),
        pcg3d(Vec3::new(1, 2, 3)).x
    );
    assert_eq!(pixel_draw(Vec2::new(1, 2), 0, 3, 6), 4204755366);
    assert_eq!(
        pixel_draw(Vec2::new(7, 9), 3, 6, 6),
        pcg3d(Vec3::new(7, 9, 27)).x
    );
}

#[test]
fn seeds_wrap_around() {
    assert_eq!(
        pixel_draw(Vec2::new(1, 1), u32::MAX, 2, 6),
        pcg3d(Vec3::new(1, 1, u32::MAX.wrapping_mul(7).wrapping_add(2))).x
    );
    assert_eq!(
        pixel_draw(Vec2::new(1, 1), 9, 2, u32::MAX),
        pcg3d(Vec3::new(1, 1, 2)).x
    );
}

#[test]
fn turns_of_one_frame_have_seeds_of_their_own() {
    let mut seeds = Vec::new();
    for frame in 0..4u32 {
        for turn in 0..=6u32 {
            seeds.push(frame * 7 + turn);
        }
    }
    let mut sorted = seeds.clone();
    sorted.dedup();
    assert_eq!(sorted.len(), 28);
    assert_ne!(pixel_draw(Vec2::new(3, 3), 1, 0, 6), pixel_draw(Vec2::new(3, 3), 0, 6, 6));
}

#[test]
fn progress_stops_at_the_cap() {
    let mut progress = Progress::new(2);
    assert_eq!(progress.iterations(), 0);
    assert_eq!(progress.max_iterations(), 2);
    assert!(!progress.is_done());
    assert_eq!(progress.advance(), Some(0));
    assert_eq!(progress.iterations(), 1);
    assert!(!progress.is_done());
    assert_eq!(progress.advance(), Some(1));
    assert!(progress.is_done());
    assert_eq!(progress.advance(), None);
    assert_eq!(progress.advance(), None);
    assert_eq!(progress.iterations(), 2);
}

#[test]
fn progress_starts_over_after_a_reset() {
    let mut progress = Progress::new(3);
    progress.advance();
    progress.advance();
    progress.reset();
    assert_eq!(progress.iterations(), 0);
    assert_eq!(progress.max_iterations(), 3);
    assert_eq!(progress.advance(), Some(0));
}

#[test]
fn progress_with_no_passes_allowed_is_done_at_once() {
    let mut progress = Progress::new(0);
    assert!(progress.is_done());
    assert_eq!(progress.advance(), None);
    assert_eq!(progress.iterations(), 0);
}
