//! The decisions of a ray's path through a scene of refractive circles.
//!
//! Where a ray crosses a circle, and how it bends there, is real-valued
//! arithmetic and left to the caller. Which crossing comes first, which
//! medium the ray is in, and when the path ends, are decided here. A ray
//! parameter reaches these functions as a key: an unsigned integer that
//! orders as the parameter does.

use vstd::prelude::*;

use crate::color::ONE;

verus! {

/// The parameters at which a ray's line crosses the boundary of one circle.
#[derive(Clone, Copy, Debug, PartialEq, Eq)]
pub struct Crossing {
    /// Whether the line meets the circle at all.
    pub hit: bool,
    /// Key of the parameter at which the ray enters the circle.
    pub min_t: u32,
    /// Key of the parameter at which the ray leaves the circle.
    pub max_t: u32,
}

/// The first boundary ahead of a ray.
#[derive(Clone, Copy, Debug, PartialEq, Eq)]
pub struct RayHit {
    /// Key of the parameter at which the boundary is met.
    pub distance: u32,
    /// Index of the circle whose boundary it is.
    pub object: usize,
    /// Whether the ray leaves the circle there, rather than enters it.
    pub leaving: bool,
}

/// The medium a ray travels in: a circle, by index, or the vacuum around
/// them.
pub type Medium = Option<usize>;

impl Crossing {
    /// The nearer of the circle's boundary points that lie beyond `start`,
    /// with whether the ray leaves the circle there. Where entry and exit
    /// coincide, the point counts as an entry.
    pub open spec fn ahead(&self, start: u32) -> Option<(u32, bool)> {
        let entry = self.hit && start < self.min_t;
        let exit = self.hit && start < self.max_t;
        if entry && (!exit || self.min_t <= self.max_t) {
            Some((self.min_t, false))
        } else if exit {
            Some((self.max_t, true))
        } else {
            None
        }
    }

    /// The nearer of the circle's boundary points that lie beyond `start`.
    pub fn nearest_ahead(&self, start: u32) -> (point: Option<(u32, bool)>)
        ensures
            point == self.ahead(start),
    {
        let entry = self.hit && start < self.min_t;
        let exit = self.hit && start < self.max_t;
        if entry && (!exit || self.min_t <= self.max_t) {
            Some((self.min_t, false))
        } else if exit {
            Some((self.max_t, true))
        } else {
            None
        }
    }
}

/// Whether `hit` is the nearest boundary beyond `start` among the first
/// `count` circles, the earlier circle winning where two are equally near.
pub open spec fn is_nearest(
    crossings: Seq<Crossing>,
    start: u32,
    count: int,
    hit: Option<RayHit>,
) -> bool {
    match hit {
        None => forall|i: int| 0 <= i < count ==> (#[trigger] crossings[i]).ahead(start) is None,
        Some(h) => {
            &&& 0 <= h.object < count
            &&& crossings[h.object as int].ahead(start) == Some((h.distance, h.leaving))
            &&& forall|i: int|
                0 <= i < count ==> ((#[trigger] crossings[i]).ahead(start) matches Some(p)
                    ==> h.distance <= p.0)
            &&& forall|i: int|
                0 <= i < h.object ==> ((#[trigger] crossings[i]).ahead(start) matches Some(p)
                    ==> h.distance < p.0)
        },
    }
}

/// At most one hit is the nearest.
pub proof fn lemma_nearest_unique(
    crossings: Seq<Crossing>,
    start: u32,
    count: int,
    a: Option<RayHit>,
    b: Option<RayHit>,
)
    requires
        is_nearest(crossings, start, count, a),
        is_nearest(crossings, start, count, b),
    ensures
        a == b,
{
    match (a, b) {
        (Some(x), Some(y)) => {
            assert(crossings[x.object as int].ahead(start) is Some);
            assert(crossings[y.object as int].ahead(start) is Some);
            if x.object < y.object {
                assert(y.distance < x.distance);
            } else if y.object < x.object {
                assert(x.distance < y.distance);
            }
        },
        (Some(x), None) => {
            assert(crossings[x.object as int].ahead(start) is Some);
        },
        (None, Some(y)) => {
            assert(crossings[y.object as int].ahead(start) is Some);
        },
        (None, None) => {},
    }
}

/// Finds the first boundary that a ray meets beyond the parameter `start`.
///
/// `crossings[i]` holds the crossings of the ray with circle `i`. Of all
/// boundary points beyond `start` the one with the smallest parameter is
/// chosen; among equally near ones, that of the earliest circle. The result
/// is `None` when no boundary lies ahead.
pub fn nearest_hit(crossings: &Vec<Crossing>, start: u32) -> (hit: Option<RayHit>)
    ensures
        is_nearest(crossings@, start, crossings@.len() as int, hit),
{
    let mut closest: Option<RayHit> = None;
    let mut i: usize = 0;
    while i < crossings.len()
        invariant
            i <= crossings@.len(),
            is_nearest(crossings@, start, i as int, closest),
        decreases crossings@.len() - i,
    {
        match crossings[i].nearest_ahead(start) {
            Some((distance, leaving)) => {
                let nearer = match closest {
                    None => true,
                    Some(best) => distance < best.distance,
                };
                if nearer {
                    closest = Some(RayHit { distance, object: i, leaving });
                }
            },
            None => {},
        }
        i = i + 1;
    }
    closest
}

/// Whether `medium` is the medium at a point of which `inside[i]` says
/// whether circle `i` contains it: the last circle that does, or vacuum.
pub open spec fn is_enclosing(inside: Seq<bool>, count: int, medium: Medium) -> bool {
    match medium {
        None => forall|i: int| 0 <= i < count ==> !inside[i],
        Some(m) => 0 <= m < count && inside[m as int] && forall|i: int| m < i < count ==> !inside[i],
    }
}

/// Finds the medium in which a ray starts.
///
/// `inside[i]` says whether circle `i` contains the starting point. Circles
/// are not meant to overlap; where more than one contains the point, the
/// last of them is taken.
pub fn enclosing(inside: &Vec<bool>) -> (medium: Medium)
    ensures
        is_enclosing(inside@, inside@.len() as int, medium),
{
    let mut medium: Medium = None;
    let mut i: usize = 0;
    while i < inside.len()
        invariant
            i <= inside@.len(),
            is_enclosing(inside@, i as int, medium),
        decreases inside@.len() - i,
    {
        if inside[i] {
            medium = Some(i);
        }
        i = i + 1;
    }
    medium
}

/// How far the next leg of a path goes.
#[derive(Clone, Copy, Debug, PartialEq, Eq)]
pub enum Leg {
    /// No boundary lies within the remaining length: the path runs it out
    /// in the current medium and ends.
    Last,
    /// The path runs to the boundary and meets it.
    Cross(RayHit),
}

/// Decides whether a path of the given remaining length reaches the
/// boundary ahead of it. A boundary exactly at the remaining length is
/// reached.
pub fn next_leg(hit: Option<RayHit>, remaining: u32) -> (leg: Leg)
    ensures
        leg == (match hit {
            Some(h) if h.distance <= remaining => Leg::Cross(h),
            _ => Leg::Last,
        }),
{
    match hit {
        Some(h) => {
            if h.distance > remaining {
                Leg::Last
            } else {
                Leg::Cross(h)
            }
        },
        None => Leg::Last,
    }
}

/// What happens to a path at a boundary.
#[derive(Clone, Copy, Debug, PartialEq, Eq)]
pub enum Bend {
    /// The boundary reflects all light. The path ends here, and nothing
    /// from beyond is seen.
    Blocked,
    /// The path bends and goes on in the given medium.
    Refracted(Medium),
}

/// Decides what happens to a path at the boundary `hit`.
///
/// `sine` is the bit pattern of the magnitude of the sine of the refracted
/// angle. At one or above there is no refracted ray, and the path is
/// blocked. Below it the path goes on: in the circle it has entered, or in
/// vacuum if it has left one.
pub fn bend(hit: RayHit, sine: u32) -> (outcome: Bend)
    ensures
        outcome == (if sine >= ONE {
            Bend::Blocked
        } else if hit.leaving {
            Bend::Refracted(None)
        } else {
            Bend::Refracted(Some(hit.object))
        }),
{
    if sine >= ONE {
        Bend::Blocked
    } else if hit.leaving {
        Bend::Refracted(None)
    } else {
        Bend::Refracted(Some(hit.object))
    }
}

} // verus!
