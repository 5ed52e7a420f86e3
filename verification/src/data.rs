//! Synthetic data: points scattered around the line `y = 2x + 1`.

use crate::fixed::{fx_prod, fx_sum, fx_whole, Fixed, ONE_RAW};
use vstd::prelude::*;

verus! {

/// The smallest raw count of an input: minus ten.
pub const INPUT_LOW_RAW: i64 = -0xa_0000_0000;

/// The raw count that bounds the inputs from above: ten.
pub const INPUT_HIGH_RAW: i64 = 0xa_0000_0000;

/// Raw count of the target for the input `x` and the disturbance `noise`:
/// `2 * x + 1 + noise`.
pub open spec fn noisy_line(x: int, noise: int) -> int {
    fx_sum(fx_sum(fx_prod(fx_whole(2), x), ONE_RAW as int), noise)
}

/// For inputs and disturbances of the sizes that are drawn here, nothing
/// is rounded and nothing saturates: the target is exactly `2x + 1 + noise`.
pub proof fn lemma_noisy_line_exact(x: int, noise: int)
    requires
        INPUT_LOW_RAW <= x < INPUT_HIGH_RAW,
        -ONE_RAW <= noise < ONE_RAW,
    ensures
        noisy_line(x, noise) == 2 * x + ONE_RAW + noise,
{
    let m = if x < 0 {
        -x
    } else {
        x
    };
    assert((0x2_0000_0000 * m) / 0x1_0000_0000 == 2 * m) by (nonlinear_arith);
}

/// Draws a raw count from `low` up to, but not including, `high`, by
/// `rand::Rng::gen_range` on the generator that `rand::thread_rng` hands
/// out. The call is believed to return a number inside the range; it is
/// made only for ranges that are not empty, on which it does not panic.
#[verifier::external_body]
fn draw_raw(low: i64, high: i64) -> (r: i64)
    requires
        low < high,
    ensures
        low <= r < high,
{
    rand::Rng::gen_range(&mut rand::thread_rng(), low..high)
}

/// A number drawn from minus one up to, but not including, one.
pub fn draw_unit() -> (r: Fixed)
    ensures
        -ONE_RAW <= r@ < ONE_RAW,
{
    Fixed::from_raw(draw_raw(-ONE_RAW, ONE_RAW))
}

/// A number drawn from minus ten up to, but not including, ten.
pub fn draw_input() -> (r: Fixed)
    ensures
        INPUT_LOW_RAW <= r@ < INPUT_HIGH_RAW,
{
    Fixed::from_raw(draw_raw(INPUT_LOW_RAW, INPUT_HIGH_RAW))
}

/// The target for the input `x` and the disturbance `noise`.
pub fn noisy_target(x: Fixed, noise: Fixed) -> (y: Fixed)
    ensures
        y@ == noisy_line(x@, noise@),
{
    Fixed::from_int(2).times(x).plus(Fixed::one()).plus(noise)
}

/// Draws `samples` inputs from minus ten up to ten, and for each the
/// target `2x + 1` disturbed by a number drawn from minus one up to one.
pub fn generate_data(samples: usize) -> (r: (Vec<Fixed>, Vec<Fixed>))
    ensures
        r.0.len() == samples,
        r.1.len() == samples,
        forall|i: int| 0 <= i < samples ==> INPUT_LOW_RAW <= (#[trigger] r.0@[i])@ < INPUT_HIGH_RAW,
        forall|i: int|
            0 <= i < samples ==> -ONE_RAW <= (#[trigger] r.1@[i])@ - (2 * r.0@[i]@ + ONE_RAW)
                < ONE_RAW,
{
    let mut xs: Vec<Fixed> = Vec::new();
    let mut ys: Vec<Fixed> = Vec::new();
    let mut i: usize = 0;
    while i < samples
        invariant
            i <= samples,
            xs.len() == i,
            ys.len() == i,
            forall|j: int| 0 <= j < i ==> INPUT_LOW_RAW <= (#[trigger] xs@[j])@ < INPUT_HIGH_RAW,
            forall|j: int|
                0 <= j < i ==> -ONE_RAW <= (#[trigger] ys@[j])@ - (2 * xs@[j]@ + ONE_RAW) < ONE_RAW,
        decreases samples - i,
    {
        let x: Fixed = draw_input();
        let noise: Fixed = draw_unit();
        let y: Fixed = noisy_target(x, noise);
        proof {
            lemma_noisy_line_exact(x@, noise@);
        }
        xs.push(x);
        ys.push(y);
        i = i + 1;
    }
    (xs, ys)
}

} // verus!
