//! The sampling schedule of one cascade update.
//!
//! For each pixel and frame the update walks the hierarchy from its
//! coarsest angular level to its finest, choosing one child bucket per
//! level, follows the chosen direction through one segment per level, and
//! scatters what it saw back into the bucket chosen at each level. The
//! weights and radiances are the caller's; the buckets, seeds and segment
//! lengths are computed here.

use vstd::prelude::*;
use vstd::arithmetic::power2::{lemma_pow2_adds, lemma_pow2_pos, lemma_pow2_strictly_increases, pow2};
use vstd::bits::{lemma_u32_shl_is_mul, lemma_u32_shr_is_div};

use crate::cascade::Layout;
use crate::utils::{lemma_wrapping_mul_add, pcg3d, pcg3d_value, wrap32};
use crate::vector::{Vec2, Vec3};

verus! {

/// `2^(a + b)` is `2^a * 2^b`, and both are positive.
proof fn lemma_pow2_split(a: nat, b: nat)
    ensures
        pow2(a + b) == pow2(a) * pow2(b),
        pow2(a) >= 1,
        pow2(b) >= 1,
{
    lemma_pow2_adds(a, b);
    lemma_pow2_pos(a);
    lemma_pow2_pos(b);
}

/// A power of two that fits 32 bits has an exponent below 32.
proof fn lemma_pow2_below(e: nat)
    requires
        e < 32,
    ensures
        1 <= pow2(e) <= 0x8000_0000,
{
    vstd::arithmetic::power2::lemma2_to64();
    lemma_pow2_pos(e);
    if e < 31 {
        lemma_pow2_strictly_increases(e, 31);
    }
}

impl Layout {
    /// Child buckets per bucket: the factor by which the angular resolution
    /// grows from one level to the next.
    pub open spec fn children(&self) -> int {
        pow2(self.angular_scale as nat) as int
    }

    /// Buckets that `level + 1` choices of a child lead to.
    pub open spec fn buckets_after(&self, level: int) -> int {
        pow2((self.angular_scale * (level + 1)) as nat) as int
    }

    /// The shape is sound, a bucket of the finest level fits a 32-bit
    /// word, and the base level has a bucket for every first choice.
    pub open spec fn samplable(&self) -> bool {
        &&& self.wf()
        &&& self.angular_scale * self.num_cascades < 32
        &&& self.children() <= self.base_angles
    }

    /// The bucket reached from `parent` by choosing its child `child`.
    pub open spec fn spec_child_bucket(&self, parent: u32, child: u32) -> int {
        parent * self.children() + child
    }

    /// The bucket of `level` that the finest-level bucket `leaf` descends
    /// from.
    pub open spec fn spec_scatter_bucket(&self, leaf: u32, level: int) -> int {
        leaf as int / pow2((self.angular_scale * (self.num_cascades - 1 - level)) as nat) as int
    }

    /// The greatest length of the segment traced at `level`: two for the
    /// first, and six times the angular growth of the levels between for
    /// each later one.
    pub open spec fn spec_segment_length(&self, level: int) -> int {
        if level == 0 {
            2
        } else {
            6 * pow2((self.angular_scale * (level - 1)) as nat) as int
        }
    }

    /// Choosing children level by level keeps the bucket within the level's
    /// angular range.
    pub proof fn lemma_descent_in_range(&self, level: int, parent: u32, child: u32)
        requires
            self.samplable(),
            0 <= level < self.num_cascades,
            level == 0 ==> parent == 0,
            level > 0 ==> parent < self.buckets_after(level - 1),
            child < self.children(),
        ensures
            0 <= self.spec_child_bucket(parent, child) < self.buckets_after(level),
            self.buckets_after(level) <= self.angles_at(level),
            self.buckets_after(level) <= 0x8000_0000,
            self.valid(level, self.spec_child_bucket(parent, child)),
    {
        let s = self.angular_scale as nat;
        let c = pow2(s) as int;
        let at = (self.angular_scale * level) as nat;
        assert(self.angular_scale * (level + 1) == self.angular_scale * level + self.angular_scale)
            by (nonlinear_arith);
        assert(0 <= self.angular_scale * level <= self.angular_scale * (level + 1)
            <= self.angular_scale * self.num_cascades) by (nonlinear_arith)
            requires
                0 <= level < self.num_cascades,
                0 <= self.angular_scale,
        ;
        lemma_pow2_split(at, s);
        lemma_pow2_below((self.angular_scale * (level + 1)) as nat);
        let below = pow2(at) as int;
        assert(self.buckets_after(level) == below * c);
        if level > 0 {
            assert(self.angular_scale * ((level - 1) + 1) == self.angular_scale * level)
                by (nonlinear_arith);
            assert(parent < below);
        } else {
            assert(self.angular_scale * level == 0) by (nonlinear_arith)
                requires
                    level == 0,
            ;
            vstd::arithmetic::power2::lemma2_to64();
        }
        assert(parent * c + child < below * c) by (nonlinear_arith)
            requires
                0 <= parent,
                parent + 1 <= below,
                0 <= child < c,
        {
            assert((parent + 1) * c <= below * c);
        }
        assert(0 <= parent * c) by (nonlinear_arith)
            requires
                0 <= parent,
                0 <= c,
        ;
        assert(below * c <= self.base_angles * below) by (nonlinear_arith)
            requires
                c <= self.base_angles,
                0 <= below,
        ;
        assert(level * self.angular_scale == self.angular_scale * level) by (nonlinear_arith);
    }

    /// Scattering at the finest level uses the finest bucket itself, and the
    /// bucket used at each level is the parent of the one used at the next.
    pub proof fn lemma_scatter_follows_descent(&self, level: int, parent: u32, child: u32)
        requires
            self.samplable(),
            0 <= level < self.num_cascades,
            child < self.children(),
            self.spec_child_bucket(parent, child) <= u32::MAX,
        ensures
            self.spec_child_bucket(parent, child) / self.children() == parent,
            forall|leaf: u32| #[trigger]
                self.spec_scatter_bucket(leaf, self.num_cascades - 1) == leaf,
            level > 0 ==> forall|leaf: u32| #[trigger]
                self.spec_scatter_bucket(leaf, level - 1) == self.spec_scatter_bucket(leaf, level)
                    / self.children(),
    {
        let s = self.angular_scale as nat;
        let c = pow2(s) as int;
        lemma_pow2_pos(s);
        vstd::arithmetic::div_mod::lemma_fundamental_div_mod_converse(
            parent * c + child,
            c,
            parent as int,
            child as int,
        );
        vstd::arithmetic::power2::lemma2_to64();
        assert(self.angular_scale * (self.num_cascades - 1 - (self.num_cascades - 1)) == 0)
            by (nonlinear_arith);
        assert forall|leaf: u32| #[trigger]
            self.spec_scatter_bucket(leaf, self.num_cascades - 1) == leaf by {
            assert(leaf as int / 1 == leaf);
        }
        if level > 0 {
            let up = (self.angular_scale * (self.num_cascades - 1 - level)) as nat;
            assert(self.angular_scale * (self.num_cascades - 1 - level) >= 0) by (nonlinear_arith)
                requires
                    level < self.num_cascades,
                    self.angular_scale >= 0,
            ;
            assert(self.angular_scale * (self.num_cascades - 1 - (level - 1))
                == self.angular_scale * (self.num_cascades - 1 - level) + self.angular_scale)
                by (nonlinear_arith);
            lemma_pow2_split(up, s);
            assert forall|leaf: u32| #[trigger]
                self.spec_scatter_bucket(leaf, level - 1) == self.spec_scatter_bucket(leaf, level)
                    / self.children() by {
                vstd::arithmetic::div_mod::lemma_div_denominator(
                    leaf as int,
                    pow2(up) as int,
                    c,
                );
            }
        }
    }

    /// The bucket reached from `parent` by choosing its child `child` at
    /// `level`.
    pub fn child_bucket(&self, level: u32, parent: u32, child: u32) -> (bucket: u32)
        requires
            self.samplable(),
            level < self.num_cascades,
            level == 0 ==> parent == 0,
            level > 0 ==> parent < self.buckets_after(level - 1),
            child < self.children(),
        ensures
            bucket == self.spec_child_bucket(parent, child),
            bucket < self.buckets_after(level as int),
            self.valid(level as int, bucket as int),
    {
        proof {
            self.lemma_descent_in_range(level as int, parent, child);
            lemma_pow2_pos(self.angular_scale as nat);
            assert(parent * self.children() <= self.spec_child_bucket(parent, child));
            lemma_u32_shl_is_mul(parent, self.angular_scale);
        }
        (parent << self.angular_scale) + child
    }

    /// The bucket of `level` into which a path that ended in the finest
    /// bucket `leaf` scatters.
    pub fn scatter_bucket(&self, leaf: u32, level: u32) -> (bucket: u32)
        requires
            self.samplable(),
            level < self.num_cascades,
        ensures
            bucket == self.spec_scatter_bucket(leaf, level as int),
            leaf < self.buckets_after(self.num_cascades - 1) ==> self.valid(
                level as int,
                bucket as int,
            ),
    {
        let up: u32 = self.num_cascades - 1 - level;
        proof {
            assert(0 <= self.angular_scale * up < 32) by (nonlinear_arith)
                requires
                    self.angular_scale * self.num_cascades < 32,
                    0 <= up < self.num_cascades,
                    0 <= self.angular_scale,
            ;
        }
        let shift: u32 = self.angular_scale * up;
        proof {
            lemma_u32_shr_is_div(leaf, shift);
            if leaf < self.buckets_after(self.num_cascades - 1) {
                self.lemma_scatter_in_range(leaf, level as int);
            }
        }
        leaf >> shift
    }

    /// A finest-level bucket scatters into a bucket of each level that lies
    /// within that level's angular range.
    pub proof fn lemma_scatter_in_range(&self, leaf: u32, level: int)
        requires
            self.samplable(),
            0 <= level < self.num_cascades,
            leaf < self.buckets_after(self.num_cascades - 1),
        ensures
            0 <= self.spec_scatter_bucket(leaf, level) < self.buckets_after(level),
            self.valid(level, self.spec_scatter_bucket(leaf, level)),
    {
        let s = self.angular_scale as int;
        let n = self.num_cascades as int;
        let up = (s * (n - 1 - level)) as nat;
        let here = (s * (level + 1)) as nat;
        assert(s * (n - 1 - level) >= 0 && s * (level + 1) >= 0 && s * (n - 1 - level) + s * (level
            + 1) == s * n && s * ((n - 1) + 1) == s * n) by (nonlinear_arith)
            requires
                0 <= level < n,
                0 <= s,
        ;
        lemma_pow2_split(here, up);
        let d = pow2(up) as int;
        let h = pow2(here) as int;
        assert(self.buckets_after(n - 1) == h * d);
        vstd::arithmetic::div_mod::lemma_fundamental_div_mod(leaf as int, d);
        let q = leaf as int / d;
        assert(q < h) by (nonlinear_arith)
            requires
                leaf < h * d,
                leaf == d * q + leaf as int % d,
                0 <= leaf as int % d,
                d >= 1,
        {
            if q >= h {
                assert(d * q >= d * h);
            }
        }
        vstd::arithmetic::div_mod::lemma_div_pos_is_pos(leaf as int, d);
        lemma_pow2_pos(self.angular_scale as nat);
        if level > 0 {
            lemma_pow2_pos((self.angular_scale * ((level - 1) + 1)) as nat);
        }
        self.lemma_descent_in_range(level, 0, 0);
        assert(level * self.angular_scale == self.angular_scale * level) by (nonlinear_arith);
    }

    /// The greatest length of the segment traced at `level`.
    pub fn segment_length(&self, level: u32) -> (length: u32)
        requires
            self.samplable(),
            level < self.num_cascades,
        ensures
            length == self.spec_segment_length(level as int),
    {
        if level == 0 {
            2
        } else {
            proof {
                assert(0 <= self.angular_scale * (level - 1) <= 29) by (nonlinear_arith)
                    requires
                        self.angular_scale * self.num_cascades < 32,
                        1 <= level < self.num_cascades,
                        0 <= self.angular_scale <= 2,
                {
                    assert(self.angular_scale * (level - 1) + 2 * self.angular_scale
                        <= self.angular_scale * self.num_cascades);
                }
                vstd::arithmetic::power2::lemma2_to64();
                if self.angular_scale * (level - 1) < 29 {
                    lemma_pow2_strictly_increases((self.angular_scale * (level - 1)) as nat, 29);
                }
            }
            let shift: u32 = self.angular_scale * (level - 1);
            proof {
                lemma_u32_shl_is_mul(3u32, shift);
            }
            2 * (3u32 << shift)
        }
    }
}

/// The bucket that a draw falls in: the first whose cumulative weight
/// exceeds the draw, or the one past the last listed when none does.
pub open spec fn spec_pick_bucket(cumulative: Seq<u32>, draw: u32) -> int
    decreases cumulative.len(),
{
    if cumulative.len() == 0 {
        0
    } else if draw < cumulative[0] {
        0
    } else {
        1 + spec_pick_bucket(cumulative.subrange(1, cumulative.len() as int), draw)
    }
}

/// The picked bucket is the only index below which no cumulative weight
/// exceeds the draw and at which, if it is listed, one does.
pub proof fn lemma_pick_bucket(cumulative: Seq<u32>, draw: u32)
    ensures
        0 <= spec_pick_bucket(cumulative, draw) <= cumulative.len(),
        forall|i: int| 0 <= i < spec_pick_bucket(cumulative, draw) ==> draw >= cumulative[i],
        spec_pick_bucket(cumulative, draw) < cumulative.len() ==> draw < cumulative[spec_pick_bucket(
            cumulative,
            draw,
        )],
    decreases cumulative.len(),
{
    if cumulative.len() > 0 && draw >= cumulative[0] {
        let rest = cumulative.subrange(1, cumulative.len() as int);
        lemma_pick_bucket(rest, draw);
        assert forall|i: int| 0 <= i < spec_pick_bucket(cumulative, draw) implies draw
            >= cumulative[i] by {
            if i > 0 {
                assert(cumulative[i] == rest[i - 1]);
            }
        }
        if spec_pick_bucket(cumulative, draw) < cumulative.len() {
            assert(cumulative[spec_pick_bucket(cumulative, draw)] == rest[spec_pick_bucket(
                rest,
                draw,
            )]);
        }
    }
}

/// Picks the bucket that a draw falls in.
///
/// `cumulative[i]` is the key of the summed weight of buckets `0..=i`, for
/// every bucket but the last, and `draw` the key of the drawn value. The
/// first bucket whose cumulative weight exceeds the draw is picked; where
/// the draw equals a cumulative weight the next one is. When none exceeds
/// it, the last bucket, which is not listed, is picked.
pub fn pick_bucket(cumulative: &Vec<u32>, draw: u32) -> (bucket: usize)
    ensures
        bucket == spec_pick_bucket(cumulative@, draw),
        bucket <= cumulative@.len(),
        forall|i: int| 0 <= i < bucket ==> draw >= cumulative@[i],
        bucket < cumulative@.len() ==> draw < cumulative@[bucket as int],
{
    let mut i: usize = 0;
    proof {
        lemma_pick_bucket(cumulative@, draw);
    }
    while i < cumulative.len() && draw >= cumulative[i]
        invariant
            i <= cumulative@.len(),
            forall|j: int| 0 <= j < i ==> draw >= cumulative@[j],
        decreases cumulative@.len() - i,
    {
        i = i + 1;
    }
    proof {
        let picked = spec_pick_bucket(cumulative@, draw);
        if picked < i {
            assert(draw < cumulative@[picked]);
        } else if picked > i {
            assert(draw >= cumulative@[i as int]);
        }
    }
    i
}

/// The word that seeds the draw of `level` in `frame`: levels take turns
/// within a frame, with one further turn for the jitter inside the finest
/// bucket, which has the turn `num_cascades`.
pub open spec fn spec_draw_seed(frame: u32, turn: u32, num_cascades: u32) -> u32 {
    wrap32(frame * wrap32(num_cascades + 1) + turn)
}

/// The word from which a pixel draws its value for one turn of one frame:
/// the first component of the hash of its coordinates and the turn's seed.
pub open spec fn spec_pixel_draw(pixel: Vec2<u32>, frame: u32, turn: u32, num_cascades: u32) -> u32 {
    pcg3d_value(
        Vec3 { x: pixel.x, y: pixel.y, z: spec_draw_seed(frame, turn, num_cascades) },
    ).x
}

/// Draws the word for one turn of a pixel in a frame. Divided by the
/// largest word it gives a value between zero and one.
pub fn pixel_draw(pixel: Vec2<u32>, frame: u32, turn: u32, num_cascades: u32) -> (word: u32)
    ensures
        word == spec_pixel_draw(pixel, frame, turn, num_cascades),
{
    let turns = num_cascades.wrapping_add(1);
    assert(turns == wrap32(num_cascades + 1)) by {
        if num_cascades + 1 > u32::MAX {
            assert((num_cascades + 1) % 0x1_0000_0000 == 0);
        }
    }
    let seed = frame.wrapping_mul(turns).wrapping_add(turn);
    proof {
        lemma_wrapping_mul_add(turn, frame, turns);
    }
    pcg3d(Vec3 { x: pixel.x, y: pixel.y, z: seed }).x
}

/// How many update passes have run, and how many may.
#[derive(Clone, Copy, Debug, PartialEq, Eq)]
pub struct Progress {
    iterations: u32,
    max_iterations: u32,
}

impl Progress {
    /// Passes run so far.
    pub closed spec fn spec_iterations(&self) -> u32 {
        self.iterations
    }

    /// Passes after which updates cease.
    pub closed spec fn spec_max_iterations(&self) -> u32 {
        self.max_iterations
    }

    /// No more passes have run than may.
    pub open spec fn wf(&self) -> bool {
        self.spec_iterations() <= self.spec_max_iterations()
    }

    /// A fresh count, with no pass run.
    pub fn new(max_iterations: u32) -> (progress: Self)
        ensures
            progress.wf(),
            progress.spec_iterations() == 0,
            progress.spec_max_iterations() == max_iterations,
    {
        Progress { iterations: 0, max_iterations }
    }

    pub fn iterations(&self) -> (n: u32)
        ensures
            n == self.spec_iterations(),
    {
        self.iterations
    }

    pub fn max_iterations(&self) -> (n: u32)
        ensures
            n == self.spec_max_iterations(),
    {
        self.max_iterations
    }

    /// Whether every pass that may run has run.
    pub fn is_done(&self) -> (done: bool)
        ensures
            done == (self.spec_iterations() >= self.spec_max_iterations()),
    {
        self.iterations >= self.max_iterations
    }

    /// Claims the next pass. Gives the number of the frame to run, counted
    /// from zero, or `None` once the cap is reached; the count rises by one
    /// exactly when a frame is given.
    pub fn advance(&mut self) -> (frame: Option<u32>)
        requires
            old(self).wf(),
        ensures
            final(self).wf(),
            final(self).spec_max_iterations() == old(self).spec_max_iterations(),
            old(self).spec_iterations() < old(self).spec_max_iterations() ==> frame == Some(
                old(self).spec_iterations(),
            ) && final(self).spec_iterations() == old(self).spec_iterations() + 1,
            old(self).spec_iterations() >= old(self).spec_max_iterations() ==> frame is None
                && final(self).spec_iterations() == old(self).spec_iterations(),
    {
        if self.iterations < self.max_iterations {
            let frame = self.iterations;
            self.iterations = frame + 1;
            Some(frame)
        } else {
            None
        }
    }

    /// Starts the count again from zero, as after a change to the scene.
    pub fn reset(&mut self)
        ensures
            final(self).wf(),
            final(self).spec_iterations() == 0,
            final(self).spec_max_iterations() == old(self).spec_max_iterations(),
    {
        self.iterations = 0;
    }
}

} // verus!
