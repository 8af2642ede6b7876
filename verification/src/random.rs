//! Chance: the draws that the world's generation and the agents' moods take
//! from the thread's random number generator.

use crate::fixed::{Fixed, ONE};
use rand::rngs::ThreadRng;
use rand::Rng;
use vstd::prelude::*;

verus! {

/// `rand::rngs::ThreadRng`, the handle on the random number generator of the
/// thread. Nothing is known of what it holds.
#[verifier::external_type_specification]
#[verifier::external_body]
pub struct ExThreadRng(rand::rngs::ThreadRng);

/// `rand::thread_rng`: the handle on the generator of this thread, which the
/// system seeds. Nothing is claimed of it.
pub assume_specification[ rand::thread_rng ]() -> (rng: rand::rngs::ThreadRng);

/// `rand::Rng::gen_range` on the half-open range `low..high`: some integer
/// of that range. What it returns differs from call to call; on an empty
/// range it panics.
#[verifier::external_body]
pub(crate) fn gen_range(rng: &mut ThreadRng, low: i64, high: i64) -> (r: i64)
    requires
        low < high,
    ensures
        low <= r < high,
{
    rng.gen_range(low..high)
}

/// `rand::Rng::gen` for a `u32`: any value may come back.
#[verifier::external_body]
pub(crate) fn gen_u32(rng: &mut ThreadRng) -> (r: u32) {
    rng.gen()
}

/// An integer drawn from `low` up to, but without, `high`.
pub fn random_in_range(low: i64, high: i64) -> (r: i64)
    requires
        low < high,
    ensures
        low <= r < high,
{
    let mut rng: ThreadRng = rand::thread_rng();
    gen_range(&mut rng, low, high)
}

/// A number drawn from `[0, 1)`.
pub fn random_unit() -> (r: Fixed)
    ensures
        0 <= r@ < ONE,
{
    Fixed { raw: random_in_range(0, ONE) }
}

/// A number drawn from `[low, high)`; `low` where that range is empty.
pub fn random_between(low: Fixed, high: Fixed) -> (r: Fixed)
    ensures
        low@ <= r@,
        low@ < high@ ==> r@ < high@,
        low@ >= high@ ==> r == low,
{
    if low.raw < high.raw {
        Fixed { raw: random_in_range(low.raw, high.raw) }
    } else {
        low
    }
}

/// An id drawn from all of them.
pub fn random_id() -> (r: u32) {
    let mut rng: ThreadRng = rand::thread_rng();
    gen_u32(&mut rng)
}

/// `n` numbers, each drawn from `[0, 1)`.
pub fn random_units(n: usize) -> (r: Vec<Fixed>)
    ensures
        r@.len() == n,
        forall|i: int| 0 <= i < n ==> 0 <= (#[trigger] r@[i])@ < ONE,
{
    let mut draws: Vec<Fixed> = Vec::new();
    let mut i: usize = 0;
    while i < n
        invariant
            0 <= i <= n,
            draws@.len() == i,
            forall|j: int| 0 <= j < i ==> 0 <= (#[trigger] draws@[j])@ < ONE,
        decreases n - i,
    {
        draws.push(random_unit());
        i = i + 1;
    }
    draws
}

} // verus!
