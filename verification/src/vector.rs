//! Small fixed-size vectors with named components.

use vstd::prelude::*;

verus! {

/// A pair of components, addressed as `x` and `y`.
#[derive(Clone, Copy, Debug, PartialEq, Eq)]
pub struct Vec2<T> {
    pub x: T,
    pub y: T,
}

/// A triple of components, addressed as `x`, `y` and `z`.
#[derive(Clone, Copy, Debug, PartialEq, Eq)]
pub struct Vec3<T> {
    pub x: T,
    pub y: T,
    pub z: T,
}

impl<T: Copy> Vec2<T> {
    pub fn new(x: T, y: T) -> (v: Self)
        ensures
            v.x == x,
            v.y == y,
    {
        Vec2 { x, y }
    }

    /// The vector whose components all equal `value`.
    pub fn splat(value: T) -> (v: Self)
        ensures
            v.x == value,
            v.y == value,
    {
        Vec2 { x: value, y: value }
    }
}

impl<T: Copy> Vec3<T> {
    pub fn new(x: T, y: T, z: T) -> (v: Self)
        ensures
            v.x == x,
            v.y == y,
            v.z == z,
    {
        Vec3 { x, y, z }
    }

    /// The vector whose components all equal `value`.
    pub fn splat(value: T) -> (v: Self)
        ensures
            v.x == value,
            v.y == value,
            v.z == value,
    {
        Vec3 { x: value, y: value, z: value }
    }
}

} // verus!
