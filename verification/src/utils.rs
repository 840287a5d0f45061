//! Permuted congruential hashing on 32-bit words.

use vstd::prelude::*;
use vstd::arithmetic::div_mod::{
    lemma_add_mod_noop, lemma_fundamental_div_mod_converse, lemma_small_mod,
};
use vstd::wrapping::u32_specs;

use crate::vector::Vec3;

verus! {

/// Reduction of an integer to the 32-bit word it wraps to.
pub open spec fn wrap32(n: int) -> u32 {
    (n % 0x1_0000_0000) as u32
}

/// A wrapping product is the exact product reduced to 32 bits.
proof fn lemma_wrapping_mul(a: u32, b: u32)
    ensures
        u32_specs::wrapping_mul(a, b) == wrap32(a * b),
{
    assert(a as nat * b as nat == (a * b) as nat) by (nonlinear_arith);
}

/// A wrapping sum with a wrapped product is the exact value reduced to 32 bits.
pub proof fn lemma_wrapping_mul_add(c: u32, a: u32, b: u32)
    ensures
        u32_specs::wrapping_add(c, u32_specs::wrapping_mul(a, b)) == wrap32(c + a * b),
        u32_specs::wrapping_add(u32_specs::wrapping_mul(a, b), c) == wrap32(a * b + c),
{
    let r = 0x1_0000_0000int;
    let p = a as int * b as int;
    let m = p % r;
    lemma_wrapping_mul(a, b);
    assert(0 <= p) by (nonlinear_arith)
        requires
            p == a as int * b as int,
    ;
    lemma_small_mod(c as nat, r as nat);
    lemma_add_mod_noop(c as int, p, r);
    if c + m >= r {
        lemma_fundamental_div_mod_converse(c + m, r, 1, c + m - r);
    } else {
        lemma_small_mod((c + m) as nat, r as nat);
    }
}

/// One step of the linear congruential generator that seeds [`pcg`].
pub open spec fn pcg_state(v: u32) -> u32 {
    wrap32(v * 747796405 + 2891336453)
}

/// The random-shift, multiply stage applied to a generator state.
pub open spec fn pcg_word(state: u32) -> u32 {
    wrap32(((state >> ((state >> 28u32) + 4) as u32) ^ state) * 277803737)
}

/// The hash of `v`: state step, permutation, and a final xor-shift.
pub open spec fn pcg_value(v: u32) -> u32 {
    let word = pcg_word(pcg_state(v));
    (word >> 22u32) ^ word
}

/// Hashes one word.
pub fn pcg(v: u32) -> (h: u32)
    ensures
        h == pcg_value(v),
{
    let state = v.wrapping_mul(747796405u32).wrapping_add(2891336453u32);
    proof {
        lemma_wrapping_mul_add(2891336453u32, v, 747796405u32);
    }
    let top: u32 = state >> 28u32;
    assert(top <= 15) by (bit_vector)
        requires
            top == state >> 28u32,
    ;
    let shift: u32 = top + 4;
    let mixed: u32 = (state >> shift) ^ state;
    proof {
        lemma_wrapping_mul(mixed, 277803737u32);
    }
    let word = mixed.wrapping_mul(277803737u32);
    (word >> 22u32) ^ word
}

/// Hashes one word; the same function as [`pcg`], kept for callers that
/// seed per-frame state outside the per-pixel stages.
pub fn pcg_host(v: u32) -> (h: u32)
    ensures
        h == pcg_value(v),
{
    pcg(v)
}

/// The per-component congruential step that opens [`pcg3d`].
pub open spec fn pcg3d_seed(v: Vec3<u32>) -> Vec3<u32> {
    Vec3 {
        x: wrap32(v.x * 1664525 + 1013904223),
        y: wrap32(v.y * 1664525 + 1013904223),
        z: wrap32(v.z * 1664525 + 1013904223),
    }
}

/// One round of cross-component mixing: each component absorbs the product
/// of the other two, and each update sees the ones made before it.
pub open spec fn pcg3d_mix(v: Vec3<u32>) -> Vec3<u32> {
    let x = wrap32(v.x + v.y * v.z);
    let y = wrap32(v.y + v.z * x);
    let z = wrap32(v.z + x * y);
    Vec3 { x, y, z }
}

/// Folds the high half of each component onto its low half.
pub open spec fn pcg3d_fold(v: Vec3<u32>) -> Vec3<u32> {
    Vec3 { x: v.x ^ (v.x >> 16u32), y: v.y ^ (v.y >> 16u32), z: v.z ^ (v.z >> 16u32) }
}

/// The three-component hash of `v`.
pub open spec fn pcg3d_value(v: Vec3<u32>) -> Vec3<u32> {
    pcg3d_mix(pcg3d_fold(pcg3d_mix(pcg3d_seed(v))))
}

/// One mixing round on concrete words.
fn mix_round(v: Vec3<u32>) -> (m: Vec3<u32>)
    ensures
        m == pcg3d_mix(v),
{
    let x = v.x.wrapping_add(v.y.wrapping_mul(v.z));
    let y = v.y.wrapping_add(v.z.wrapping_mul(x));
    let z = v.z.wrapping_add(x.wrapping_mul(y));
    proof {
        lemma_wrapping_mul_add(v.x, v.y, v.z);
        lemma_wrapping_mul_add(v.y, v.z, x);
        lemma_wrapping_mul_add(v.z, x, y);
    }
    Vec3 { x, y, z }
}

/// Hashes three words into three words.
pub fn pcg3d(v: Vec3<u32>) -> (h: Vec3<u32>)
    ensures
        h == pcg3d_value(v),
{
    let seeded = Vec3 {
        x: v.x.wrapping_mul(1664525u32).wrapping_add(1013904223u32),
        y: v.y.wrapping_mul(1664525u32).wrapping_add(1013904223u32),
        z: v.z.wrapping_mul(1664525u32).wrapping_add(1013904223u32),
    };
    proof {
        lemma_wrapping_mul_add(1013904223u32, v.x, 1664525u32);
        lemma_wrapping_mul_add(1013904223u32, v.y, 1664525u32);
        lemma_wrapping_mul_add(1013904223u32, v.z, 1664525u32);
    }
    let mixed = mix_round(seeded);
    let folded = Vec3 {
        x: mixed.x ^ (mixed.x >> 16u32),
        y: mixed.y ^ (mixed.y >> 16u32),
        z: mixed.z ^ (mixed.z >> 16u32),
    };
    mix_round(folded)
}

} // verus!
