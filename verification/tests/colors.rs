use vlam::color::{channels_valid, Color, Fluence, INFINITY, ONE, SOLID_OPACITY, ZERO};
use vlam::vector::{Vec2, Vec3};
use vlam::walk::TRANSMITTANCE_CUTOFF;

#[test]
fn constants_are_the_patterns_of_their_numbers() {
    assert_eq!(ZERO, 0.0f32.to_bits());
    assert_eq!(ONE, 1.0f32.to_bits());
    assert_eq!(INFINITY, f32::INFINITY.to_bits());
    assert_eq!(SOLID_OPACITY, 999999.0f32.to_bits());
    assert_eq!(TRANSMITTANCE_CUTOFF, 0.001f32.to_bits());
}

#[test]
fn vectors_hold_their_components() {
    assert_eq!(Vec2::new(1u32, 2), Vec2 { x: 1, y: 2 });
    assert_eq!(Vec2::splat(5u8), Vec2 { x: 5, y: 5 });
    assert_eq!(Vec3::new(1u32, 2, 3), Vec3 { x: 1, y: 2, z: 3 });
    assert_eq!(Vec3::splat(true), Vec3 { x: true, y: true, z: true });
}

#[test]
fn empty_color_is_vacuum() {
    let vacuum = Color::empty();
    assert_eq!(vacuum.emission, Vec3::splat(0));
    assert_eq!(vacuum.opacity, Vec3::splat(0));
    assert!(vacuum.is_valid());
}

#[test]
fn solid_color_has_the_solid_opacity() {
    let emission = Vec3::new(5.0f32.to_bits(), 0.5f32.to_bits(), 0);
    let solid = Color::solid(emission);
    assert_eq!(solid.emission, emission);
    assert_eq!(solid.opacity, Vec3::splat(999999.0f32.to_bits()));
    assert!(solid.is_valid());
}

#[test]
fn new_color_keeps_what_it_is_given() {
    let emission = Vec3::new(1, 2, 3);
    let opacity = Vec3::new(4, 5, 6);
    let color = Color::new(emission, opacity);
    assert_eq!(color, Color { emission, opacity });
}

#[test]
fn negative_and_nan_channels_are_invalid() {
    let good = Vec3::splat(2.0f32.to_bits());
    assert!(Color::new(good, good).is_valid());
    assert!(Color::new(Vec3::splat(INFINITY), good).is_valid());
    let negative = Vec3::new(0, (-1.0f32).to_bits(), 0);
    let nan = Vec3::new(0, 0, f32::NAN.to_bits());
    let negative_zero = Vec3::new((-0.0f32).to_bits(), 0, 0);
    assert!(!Color { emission: negative, opacity: good }.is_valid());
    assert!(!Color { emission: good, opacity: nan }.is_valid());
    assert!(!Color { emission: good, opacity: negative_zero }.is_valid());
    assert!(channels_valid(good));
    assert!(!channels_valid(negative));
    assert!(!channels_valid(nan));
}

#[test]
fn checked_color_refuses_invalid_channels() {
    let good = Vec3::splat(2.0f32.to_bits());
    let negative = Vec3::new(0, (-1.0f32).to_bits(), 0);
    assert_eq!(Color::checked(good, good), Some(Color { emission: good, opacity: good }));
    assert_eq!(Color::checked(negative, good), None);
    assert_eq!(Color::checked(good, negative), None);
    assert_eq!(Color::checked(Vec3::splat(INFINITY + 1), good), None);
}

#[test]
fn same_compares_every_channel() {
    let base = Color::new(Vec3::new(1, 2, 3), Vec3::new(4, 5, 6));
    assert!(base.same(&base));
    assert!(!base.same(&Color::new(Vec3::new(9, 2, 3), Vec3::new(4, 5, 6))));
    assert!(!base.same(&Color::new(Vec3::new(1, 9, 3), Vec3::new(4, 5, 6))));
    assert!(!base.same(&Color::new(Vec3::new(1, 2, 9), Vec3::new(4, 5, 6))));
    assert!(!base.same(&Color::new(Vec3::new(1, 2, 3), Vec3::new(9, 5, 6))));
    assert!(!base.same(&Color::new(Vec3::new(1, 2, 3), Vec3::new(4, 9, 6))));
    assert!(!base.same(&Color::new(Vec3::new(1, 2, 3), Vec3::new(4, 5, 9))));
}

#[test]
fn empty_fluence_adds_nothing_and_loses_nothing() {
    let fluence = Fluence::empty();
    assert_eq!(fluence.radiance, Vec3::splat(0.0f32.to_bits()));
    assert_eq!(fluence.transmittance, Vec3::splat(1.0f32.to_bits()));
    assert!(fluence.is_valid());
}

#[test]
fn fluence_validity_bounds_transmittance_by_one() {
    let radiance = Vec3::splat(7.5f32.to_bits());
    let valid = Fluence { radiance, transmittance: Vec3::splat(0.25f32.to_bits()) };
    assert!(valid.is_valid());
    let over = Fluence { radiance, transmittance: Vec3::new(ONE, ONE, 1.5f32.to_bits()) };
    assert!(!over.is_valid());
    let negative = Fluence { radiance: Vec3::splat((-1.0f32).to_bits()), transmittance: Vec3::splat(ONE) };
    assert!(!negative.is_valid());
}
