use vlam::analytic::{bend, enclosing, nearest_hit, next_leg, Bend, Crossing, Leg, RayHit};

fn key(t: f32) -> u32 {
    let bits = t.to_bits();
    if bits & 0x8000_0000 != 0 {
        !bits
    } else {
        bits | 0x8000_0000
    }
}

fn crossing(min_t: f32, max_t: f32) -> Crossing {
    Crossing { hit: true, min_t: key(min_t), max_t: key(max_t) }
}

fn miss() -> Crossing {
    Crossing { hit: false, min_t: key(0.0), max_t: key(0.0) }
}

#[test]
fn signed_keys_order_as_the_numbers_do() {
    let numbers = [f32::NEG_INFINITY, -3.0f32, -0.5, 0.0, 0.001, 1.0, 20.0, f32::INFINITY];
    for a in numbers {
        for b in numbers {
            assert_eq!(key(a) < key(b), a < b);
        }
    }
}

#[test]
fn no_objects_no_hit() {
    assert_eq!(nearest_hit(&vec![], key(0.001)), None);
    assert_eq!(next_leg(None, key(9999.0)), Leg::Last);
}

#[test]
fn a_missed_circle_is_no_hit() {
    assert_eq!(nearest_hit(&vec![miss(), miss()], key(0.001)), None);
    let far_miss = Crossing { hit: false, min_t: key(5.0), max_t: key(6.0) };
    assert_eq!(nearest_hit(&vec![far_miss], key(0.001)), None);
}

#[test]
fn a_circle_ahead_is_entered() {
    assert_eq!(
        nearest_hit(&vec![crossing(10.0, 30.0)], key(0.001)),
        Some(RayHit { distance: key(10.0), object: 0, leaving: false })
    );
}

#[test]
fn a_circle_around_the_ray_is_left() {
    assert_eq!(
        nearest_hit(&vec![crossing(-5.0, 15.0)], key(0.001)),
        Some(RayHit { distance: key(15.0), object: 0, leaving: true })
    );
    assert_eq!(
        nearest_hit(&vec![crossing(0.0, 20.0)], key(0.001)),
        Some(RayHit { distance: key(20.0), object: 0, leaving: true })
    );
}

#[test]
fn a_circle_behind_is_no_hit() {
    assert_eq!(nearest_hit(&vec![crossing(-30.0, -10.0)], key(0.001)), None);
    assert_eq!(nearest_hit(&vec![crossing(-30.0, 0.001)], key(0.001)), None);
}

#[test]
fn the_nearest_of_several_is_chosen() {
    let crossings = vec![
        crossing(50.0, 60.0),
        miss(),
        crossing(-4.0, 7.0),
        crossing(8.0, 9.0),
        crossing(-9.0, -8.0),
    ];
    assert_eq!(
        nearest_hit(&crossings, key(0.001)),
        Some(RayHit { distance: key(7.0), object: 2, leaving: true })
    );
    assert_eq!(
        nearest_hit(&crossings, key(7.0)),
        Some(RayHit { distance: key(8.0), object: 3, leaving: false })
    );
    assert_eq!(
        nearest_hit(&crossings, key(9.0)),
        Some(RayHit { distance: key(50.0), object: 0, leaving: false })
    );
    assert_eq!(
        nearest_hit(&crossings, key(55.0)),
        Some(RayHit { distance: key(60.0), object: 0, leaving: true })
    );
    assert_eq!(nearest_hit(&crossings, key(60.0)), None);
}

#[test]
fn equally_near_boundaries_go_to_the_earlier_circle() {
    let crossings = vec![crossing(20.0, 30.0), crossing(5.0, 9.0), crossing(-1.0, 5.0), crossing(5.0, 6.0)];
    assert_eq!(
        nearest_hit(&crossings, key(0.001)),
        Some(RayHit { distance: key(5.0), object: 1, leaving: false })
    );
    let touching = vec![crossing(-2.0, 4.0), crossing(4.0, 8.0)];
    assert_eq!(
        nearest_hit(&touching, key(0.001)),
        Some(RayHit { distance: key(4.0), object: 0, leaving: true })
    );
}

#[test]
fn a_grazed_circle_counts_as_entered() {
    assert_eq!(
        nearest_hit(&vec![crossing(12.0, 12.0)], key(0.001)),
        Some(RayHit { distance: key(12.0), object: 0, leaving: false })
    );
}

#[test]
fn nearest_ahead_prefers_the_entry() {
    assert_eq!(crossing(3.0, 4.0).nearest_ahead(key(1.0)), Some((key(3.0), false)));
    assert_eq!(crossing(3.0, 4.0).nearest_ahead(key(3.0)), Some((key(4.0), true)));
    assert_eq!(crossing(3.0, 4.0).nearest_ahead(key(4.0)), None);
    assert_eq!(miss().nearest_ahead(key(-1.0)), None);
    let swapped = Crossing { hit: true, min_t: key(9.0), max_t: key(2.0) };
    assert_eq!(swapped.nearest_ahead(key(1.0)), Some((key(2.0), true)));
    assert_eq!(swapped.nearest_ahead(key(5.0)), Some((key(9.0), false)));
}

#[test]
fn the_last_containing_circle_is_the_starting_medium() {
    assert_eq!(enclosing(&vec![]), None);
    assert_eq!(enclosing(&vec![false, false]), None);
    assert_eq!(enclosing(&vec![false, true, false]), Some(1));
    assert_eq!(enclosing(&vec![true, false, true, false]), Some(2));
    assert_eq!(enclosing(&vec![true]), Some(0));
}

#[test]
fn a_leg_ends_the_path_when_the_boundary_is_out_of_reach() {
    let hit = RayHit { distance: key(10.0), object: 3, leaving: false };
    assert_eq!(next_leg(Some(hit), key(9.0)), Leg::Last);
    assert_eq!(next_leg(Some(hit), key(10.0)), Leg::Cross(hit));
    assert_eq!(next_leg(Some(hit), key(25.0)), Leg::Cross(hit));
}

#[test]
fn a_path_bends_into_the_circle_or_out_into_vacuum() {
    let entering = RayHit { distance: 7, object: 4, leaving: false };
    let leaving = RayHit { distance: 7, object: 4, leaving: true };
    assert_eq!(bend(entering, 0.5f32.to_bits()), Bend::Refracted(Some(4)));
    assert_eq!(bend(leaving, 0.5f32.to_bits()), Bend::Refracted(None));
    assert_eq!(bend(entering, 0.0f32.to_bits()), Bend::Refracted(Some(4)));
    assert_eq!(bend(leaving, 0.99999f32.to_bits()), Bend::Refracted(None));
}

#[test]
fn a_path_is_blocked_when_no_refracted_ray_exists() {
    let entering = RayHit { distance: 7, object: 4, leaving: false };
    let leaving = RayHit { distance: 7, object: 4, leaving: true };
    assert_eq!(bend(leaving, 1.0f32.to_bits()), Bend::Blocked);
    assert_eq!(bend(leaving, 1.4f32.to_bits()), Bend::Blocked);
    assert_eq!(bend(entering, 1.0f32.to_bits()), Bend::Blocked);
}

#[test]
fn a_ray_through_one_circle_enters_and_leaves_it() {
    let start = key(0.001);
    let hit = nearest_hit(&vec![crossing(10.0, 30.0)], start).unwrap();
    assert_eq!(next_leg(Some(hit), key(9999.0)), Leg::Cross(hit));
    assert_eq!(bend(hit, 0.0f32.to_bits()), Bend::Refracted(Some(0)));
    let inside = nearest_hit(&vec![crossing(0.0, 20.0)], start).unwrap();
    assert_eq!(inside, RayHit { distance: key(20.0), object: 0, leaving: true });
    assert_eq!(bend(inside, 0.0f32.to_bits()), Bend::Refracted(None));
    let beyond = nearest_hit(&vec![crossing(-20.0, 0.0)], start);
    assert_eq!(beyond, None);
    assert_eq!(next_leg(beyond, key(9969.0)), Leg::Last);
}
