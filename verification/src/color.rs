//! Colours and fluences.
//!
//! Every channel is an IEEE-754 binary32 bit pattern. For the values these
//! types admit (no sign bit, no NaN) two patterns are equal exactly when the
//! numbers are, and compare as unsigned integers the way the numbers do.

use vstd::prelude::*;

use crate::vector::Vec3;

verus! {

/// Radiant exitance density per channel.
pub type Emission = Vec3<u32>;

/// Absorption coefficient density per channel.
pub type Opacity = Vec3<u32>;

/// Accumulated light per channel.
pub type Radiance = Vec3<u32>;

/// Surviving fraction of upstream light per channel.
pub type Transmittance = Vec3<u32>;

/// The pattern of `0.0`.
pub const ZERO: u32 = 0;

/// The pattern of `1.0`.
pub const ONE: u32 = 0x3F80_0000;

/// The pattern of positive infinity, the largest pattern that is a number.
pub const INFINITY: u32 = 0x7F80_0000;

/// The opacity given to solid matter: the pattern of `999999.0`.
pub const SOLID_OPACITY: u32 = 0x4974_23F0;

/// The pattern denotes a non-negative number, possibly infinite.
pub open spec fn is_nonnegative(bits: u32) -> bool {
    bits <= INFINITY
}

/// The pattern denotes a number between zero and one.
pub open spec fn is_fraction(bits: u32) -> bool {
    bits <= ONE
}

/// Every channel denotes a non-negative number.
pub open spec fn all_nonnegative(channels: Vec3<u32>) -> bool {
    is_nonnegative(channels.x) && is_nonnegative(channels.y) && is_nonnegative(channels.z)
}

/// Every channel denotes a number between zero and one.
pub open spec fn all_fractions(channels: Vec3<u32>) -> bool {
    is_fraction(channels.x) && is_fraction(channels.y) && is_fraction(channels.z)
}

/// Whether every channel denotes a non-negative number.
pub fn channels_valid(channels: Vec3<u32>) -> (valid: bool)
    ensures
        valid == all_nonnegative(channels),
{
    channels.x <= INFINITY && channels.y <= INFINITY && channels.z <= INFINITY
}

/// What a material emits and absorbs per unit length.
#[derive(Clone, Copy, Debug, PartialEq, Eq)]
pub struct Color {
    pub emission: Emission,
    pub opacity: Opacity,
}

impl Color {
    /// Emission and opacity are non-negative in every channel.
    pub open spec fn wf(&self) -> bool {
        all_nonnegative(self.emission) && all_nonnegative(self.opacity)
    }

    /// Vacuum: emits nothing, absorbs nothing.
    pub fn empty() -> (color: Self)
        ensures
            color == (Color { emission: Vec3 { x: ZERO, y: ZERO, z: ZERO }, opacity: Vec3 {
                x: ZERO,
                y: ZERO,
                z: ZERO,
            } }),
            color.wf(),
    {
        Color { emission: Vec3::splat(ZERO), opacity: Vec3::splat(ZERO) }
    }

    /// The colour with the given emission and opacity.
    pub fn new(emission: Emission, opacity: Opacity) -> (color: Self)
        requires
            all_nonnegative(emission),
            all_nonnegative(opacity),
        ensures
            color == (Color { emission, opacity }),
            color.wf(),
    {
        Color { emission, opacity }
    }

    /// The colour with the given emission and opacity, or `None` when a
    /// channel of either is not a non-negative number.
    pub fn checked(emission: Emission, opacity: Opacity) -> (color: Option<Self>)
        ensures
            color == (if all_nonnegative(emission) && all_nonnegative(opacity) {
                Some(Color { emission, opacity })
            } else {
                None
            }),
    {
        if channels_valid(emission) && channels_valid(opacity) {
            Some(Color::new(emission, opacity))
        } else {
            None
        }
    }

    /// Solid matter with the given emission: light does not pass through it.
    pub fn solid(emission: Emission) -> (color: Self)
        requires
            all_nonnegative(emission),
        ensures
            color == (Color { emission, opacity: Vec3 {
                x: SOLID_OPACITY,
                y: SOLID_OPACITY,
                z: SOLID_OPACITY,
            } }),
            color.wf(),
    {
        Color { emission, opacity: Vec3::splat(SOLID_OPACITY) }
    }

    /// Whether every channel is non-negative.
    pub fn is_valid(&self) -> (valid: bool)
        ensures
            valid == self.wf(),
    {
        channels_valid(self.emission) && channels_valid(self.opacity)
    }

    /// Whether the two colours agree in every channel.
    pub fn same(&self, other: &Color) -> (equal: bool)
        ensures
            equal == (*self == *other),
    {
        self.emission.x == other.emission.x && self.emission.y == other.emission.y
            && self.emission.z == other.emission.z && self.opacity.x == other.opacity.x
            && self.opacity.y == other.opacity.y && self.opacity.z == other.opacity.z
    }
}

/// The light leaving a ray segment and the fraction of upstream light that
/// survives it.
#[derive(Clone, Copy, Debug, PartialEq, Eq)]
pub struct Fluence {
    pub radiance: Radiance,
    pub transmittance: Transmittance,
}

impl Fluence {
    /// Radiance is non-negative and transmittance a fraction in every channel.
    pub open spec fn wf(&self) -> bool {
        all_nonnegative(self.radiance) && all_fractions(self.transmittance)
    }

    /// The fluence of a segment of no length: no light added, none lost.
    pub fn empty() -> (fluence: Self)
        ensures
            fluence == (Fluence { radiance: Vec3 { x: ZERO, y: ZERO, z: ZERO }, transmittance: Vec3 {
                x: ONE,
                y: ONE,
                z: ONE,
            } }),
            fluence.wf(),
    {
        Fluence { radiance: Vec3::splat(ZERO), transmittance: Vec3::splat(ONE) }
    }

    /// Whether radiance is non-negative and transmittance a fraction.
    pub fn is_valid(&self) -> (valid: bool)
        ensures
            valid == self.wf(),
    {
        channels_valid(self.radiance) && self.transmittance.x <= ONE && self.transmittance.y <= ONE
            && self.transmittance.z <= ONE
    }
}

} // verus!
