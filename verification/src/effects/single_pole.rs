//! What the two single-pole filters share: the time constant, the
//! smoothing coefficient, and the memory of the frame before.

use vstd::prelude::*;
use crate::sample::{divides, is_from_int, is_pi, multiplies, sums, Sample};

verus! {

/// The sample one frame before index `i` of `samples`, or, in the first
/// frame, the one that `seed` keeps from the call before.
pub open spec fn a_frame_before<T>(samples: Seq<T>, seed: Seq<T>, channels: int, i: int) -> T {
    if i < channels {
        seed[i]
    } else {
        samples[i - channels]
    }
}

/// What a filter remembers of `samples` after `count` of them: the final
/// frame, or `seed` where there was none.
pub open spec fn final_frame<T>(samples: Seq<T>, seed: Seq<T>, channels: int, count: int) -> Seq<T> {
    Seq::new(
        seed.len(),
        |c: int|
            if c < channels && channels <= count {
                samples[count - channels + c]
            } else {
                seed[c]
            },
    )
}

/// The steps from a frequency to its time constant:
/// `rc = 1 / ((2 * pi) * frequency)`.
pub open spec fn time_constant_steps<T: Sample>(
    frequency: T,
    one: T,
    two: T,
    pi: T,
    turn: T,
    angular: T,
    rc: T,
) -> bool {
    &&& is_from_int(1, one)
    &&& is_from_int(2, two)
    &&& is_pi(pi)
    &&& multiplies(two, pi, turn)
    &&& multiplies(turn, frequency, angular)
    &&& divides(one, angular, rc)
}

/// `rc` is the time constant of a single-pole filter with the cutoff
/// `frequency`, in Hz: `1 / (2 * pi * frequency)`. The same formula gives
/// the cutoff back from the time constant.
pub open spec fn is_time_constant<T: Sample>(frequency: T, rc: T) -> bool {
    exists|one: T, two: T, pi: T, turn: T, angular: T| #[trigger]
        time_constant_steps(frequency, one, two, pi, turn, angular, rc)
}

/// The steps from a time constant and a sample rate to the smoothing
/// coefficient: `a = dt / (rc + dt)`, where `dt = 1 / rate`.
pub open spec fn smoothing_steps<T: Sample>(
    rc: T,
    rate: u32,
    one: T,
    per_second: T,
    dt: T,
    span: T,
    a: T,
) -> bool {
    &&& is_from_int(1, one)
    &&& is_from_int(rate as i64, per_second)
    &&& divides(one, per_second, dt)
    &&& sums(rc, dt, span)
    &&& divides(dt, span, a)
}

/// `a` is the smoothing coefficient of a filter with the time constant
/// `rc` on a stream of `rate` frames per second: `dt / (rc + dt)`, where
/// `dt` is the sample period `1 / rate`.
pub open spec fn smooths<T: Sample>(rc: T, rate: u32, a: T) -> bool {
    exists|one: T, per_second: T, dt: T, span: T| #[trigger]
        smoothing_steps(rc, rate, one, per_second, dt, span, a)
}

/// Computes the time constant of a filter from its cutoff frequency, or the
/// cutoff frequency from the time constant.
pub fn time_constant<T: Sample>(frequency: T) -> (rc: T)
    ensures
        is_time_constant(frequency, rc),
{
    let one = T::from_int(1);
    let two = T::from_int(2);
    let pi = T::pi();
    let turn = two.product(pi);
    let angular = turn.product(frequency);
    let rc = one.quotient(angular);
    assert(time_constant_steps(frequency, one, two, pi, turn, angular, rc));
    rc
}

/// Computes the smoothing coefficient of a filter from its time constant
/// and the sample rate of the stream.
pub fn coefficient<T: Sample>(rc: T, rate: u32) -> (a: T)
    ensures
        smooths(rc, rate, a),
{
    let one = T::from_int(1);
    let per_second = T::from_int(rate as i64);
    let dt = one.quotient(per_second);
    let span = rc.sum(dt);
    let a = dt.quotient(span);
    assert(smoothing_steps(rc, rate, one, per_second, dt, span, a));
    a
}

} // verus!
