//! Sampling one cell: the escape-time iteration of one point, and the
//! average over several points of the cell.
//!
//! The numbers of the iteration are the caller's: the point, the step from
//! one iterate to the next, the test for escape and the arithmetic of the
//! estimates all come in as closures. What is decided here is how long the
//! iteration runs, which iterate counts as the escape, which draws enter the
//! average, and from which seed the random numbers of a draw start.

use crate::grid::estimates;
use vstd::arithmetic::div_mod::{
    lemma_mod_multiples_vanish, lemma_mul_mod_noop_left, lemma_small_mod,
};
use vstd::prelude::*;

verus! {

/// Whether the entry `n` of `orbit` follows by one step from the entry
/// before it, or from `start` where it is the first.
pub open spec fn follows<Z, S: Fn(Z) -> Z>(orbit: Seq<Z>, start: Z, step: &S, n: int) -> bool {
    step.ensures((if n == 0 {
        start
    } else {
        orbit[n - 1]
    },), orbit[n])
}

/// Whether `orbit` is a run of the iteration from `start`: its first entry
/// follows from `start` by one step, and each later entry from the one
/// before it.
pub open spec fn is_orbit<Z, S: Fn(Z) -> Z>(orbit: Seq<Z>, start: Z, step: &S) -> bool {
    forall|n: int| 0 <= n < orbit.len() ==> #[trigger] follows(orbit, start, step, n)
}

/// Whether no entry of `orbit` has escaped.
pub open spec fn stays_bounded<Z, E: Fn(Z) -> bool>(orbit: Seq<Z>, escaped: &E) -> bool {
    forall|n: int| 0 <= n < orbit.len() ==> escaped.ensures((#[trigger] orbit[n],), false)
}

/// Whether `estimate` is the outcome of iterating from `start` for at most
/// `max_iterations` steps.
///
/// `None` stands for a run of `max_iterations` steps none of which escaped.
/// An estimate stands for a run of at most as many steps whose last entry
/// is the first to escape: it is what `smooth` made of the number of steps
/// and of that entry.
pub open spec fn is_escape_estimate<Z, S: Fn(Z) -> Z, E: Fn(Z) -> bool, M: Fn(u32, Z) -> u64>(
    estimate: Option<u64>,
    start: Z,
    max_iterations: u32,
    step: &S,
    escaped: &E,
    smooth: &M,
) -> bool {
    exists|orbit: Seq<Z>|
        {
            &&& #[trigger] is_orbit(orbit, start, step)
            &&& match estimate {
                None => orbit.len() == max_iterations && stays_bounded(orbit, escaped),
                Some(value) => {
                    &&& 0 < orbit.len() <= max_iterations
                    &&& stays_bounded(orbit.drop_last(), escaped)
                    &&& escaped.ensures((orbit.last(),), true)
                    &&& smooth.ensures((orbit.len() as u32, orbit.last()), value)
                },
            }
        }
}

/// Iterates from `start` until an iterate escapes, for at most
/// `max_iterations` steps. The first iterate that escapes gives the estimate:
/// `smooth` is called with the number of steps that led to it, which is 1
/// for the first iterate, and with the iterate. Where none escapes within
/// the budget the result is `None`, so a budget of zero always gives `None`.
pub fn sample_mandelbrot<Z: Copy, S: Fn(Z) -> Z, E: Fn(Z) -> bool, M: Fn(u32, Z) -> u64>(
    start: Z,
    max_iterations: u32,
    step: &S,
    escaped: &E,
    smooth: &M,
) -> (estimate: Option<u64>)
    requires
        forall|z: Z| step.requires((z,)),
        forall|z: Z| escaped.requires((z,)),
        forall|n: u32, z: Z| smooth.requires((n, z)),
    ensures
        is_escape_estimate(estimate, start, max_iterations, step, escaped, smooth),
        max_iterations == 0 ==> estimate is None,
{
    let mut z = start;
    let mut iteration: u32 = 0;
    let ghost mut orbit: Seq<Z> = Seq::empty();
    while iteration < max_iterations
        invariant
            iteration <= max_iterations,
            orbit.len() == iteration,
            is_orbit(orbit, start, step),
            stays_bounded(orbit, escaped),
            z == if iteration == 0 {
                start
            } else {
                orbit[iteration - 1]
            },
            forall|z: Z| step.requires((z,)),
            forall|z: Z| escaped.requires((z,)),
            forall|n: u32, z: Z| smooth.requires((n, z)),
        decreases max_iterations - iteration,
    {
        let ghost before = orbit;
        let ghost last = z;
        z = step(z);
        proof {
            orbit = before.push(z);
            assert(orbit.drop_last() == before);
            assert forall|n: int| 0 <= n < orbit.len() implies #[trigger] follows(
                orbit,
                start,
                step,
                n,
            ) by {
                if n < before.len() {
                    assert(follows(before, start, step, n));
                } else {
                    assert(step.ensures((last,), z));
                }
            }
        }
        if escaped(z) {
            let value = smooth(iteration + 1, z);
            assert(is_orbit(orbit, start, step));
            return Some(value);
        }
        iteration += 1;
    }
    assert(is_orbit(orbit, start, step));
    None
}

/// A point whose iterates never escape has no estimate, whatever the budget.
pub proof fn lemma_bounded_orbit_has_no_estimate<
    Z,
    S: Fn(Z) -> Z,
    E: Fn(Z) -> bool,
    M: Fn(u32, Z) -> u64,
>(estimate: Option<u64>, start: Z, max_iterations: u32, step: &S, escaped: &E, smooth: &M)
    requires
        is_escape_estimate(estimate, start, max_iterations, step, escaped, smooth),
        forall|z: Z| !escaped.ensures((z,), true),
    ensures
        estimate is None,
{
}

/// A point whose first iterate escapes has an estimate under any budget but
/// zero, and it is the one of an escape after one step.
pub proof fn lemma_first_iterate_escapes<Z, S: Fn(Z) -> Z, E: Fn(Z) -> bool, M: Fn(u32, Z) -> u64>(
    estimate: Option<u64>,
    start: Z,
    max_iterations: u32,
    step: &S,
    escaped: &E,
    smooth: &M,
)
    requires
        is_escape_estimate(estimate, start, max_iterations, step, escaped, smooth),
        max_iterations > 0,
        forall|z: Z| #[trigger] step.ensures((start,), z) ==> !escaped.ensures((z,), false),
    ensures
        estimate is Some,
        exists|z: Z|
            {
                &&& #[trigger] step.ensures((start,), z)
                &&& escaped.ensures((z,), true)
                &&& smooth.ensures((1u32, z), estimate->0)
            },
{
    let orbit = choose|orbit: Seq<Z>|
        {
            &&& #[trigger] is_orbit(orbit, start, step)
            &&& match estimate {
                None => orbit.len() == max_iterations && stays_bounded(orbit, escaped),
                Some(value) => {
                    &&& 0 < orbit.len() <= max_iterations
                    &&& stays_bounded(orbit.drop_last(), escaped)
                    &&& escaped.ensures((orbit.last(),), true)
                    &&& smooth.ensures((orbit.len() as u32, orbit.last()), value)
                },
            }
        };
    assert(follows(orbit, start, step, 0));
    assert(step.ensures((start,), orbit[0]));
    if orbit.len() > 1 {
        assert(orbit.drop_last()[0] == orbit[0]);
    }
}

/// Whether `value` is what `mean` made of the estimates `values`.
pub open spec fn is_mean<M: Fn(&Vec<u64>) -> u64>(mean: &M, values: Seq<u64>, value: u64) -> bool {
    exists|escaped: Vec<u64>| escaped@ == values && #[trigger] mean.ensures((&escaped,), value)
}

/// Whether `estimate` is the average over `samples` draws.
///
/// The draws are numbered from zero. Those that escaped enter the average,
/// in their order: `estimate` is what `mean` made of their estimates, and
/// `None` where no draw escaped.
pub open spec fn is_average<D: Fn(u32) -> Option<u64>, M: Fn(&Vec<u64>) -> u64>(
    estimate: Option<u64>,
    samples: u32,
    draw: &D,
    mean: &M,
) -> bool {
    exists|draws: Seq<Option<u64>>|
        {
            &&& draws.len() == samples
            &&& #[trigger] all_drawn(draws, draw)
            &&& match estimate {
                None => estimates(draws).len() == 0,
                Some(value) => estimates(draws).len() > 0 && is_mean(
                    mean,
                    estimates(draws),
                    value,
                ),
            }
        }
}

/// Whether each entry of `draws` is what `draw` gave for its number.
pub open spec fn all_drawn<D: Fn(u32) -> Option<u64>>(draws: Seq<Option<u64>>, draw: &D) -> bool {
    forall|i: u32| i < draws.len() ==> draw.ensures((i,), #[trigger] draws[i as int])
}

/// Samples one cell `samples` times and averages the draws that escaped.
/// The result is `None` where no draw escaped, and so where there is no
/// draw.
pub fn super_sample_mandelbrot<D: Fn(u32) -> Option<u64>, M: Fn(&Vec<u64>) -> u64>(
    samples: u32,
    draw: &D,
    mean: &M,
) -> (estimate: Option<u64>)
    requires
        forall|i: u32| i < samples ==> draw.requires((i,)),
        forall|escaped: &Vec<u64>| escaped.len() > 0 ==> mean.requires((escaped,)),
    ensures
        is_average(estimate, samples, draw, mean),
        samples == 0 ==> estimate is None,
        (forall|i: u32, sample: Option<u64>|
            i < samples && #[trigger] draw.ensures((i,), sample) ==> sample is None)
            ==> estimate is None,
        samples > 0 && (forall|i: u32, sample: Option<u64>|
            i < samples && #[trigger] draw.ensures((i,), sample) ==> sample is Some)
            ==> estimate is Some,
{
    let mut escaped: Vec<u64> = Vec::new();
    let mut i: u32 = 0;
    let ghost mut draws: Seq<Option<u64>> = Seq::empty();
    while i < samples
        invariant
            i <= samples,
            draws.len() == i,
            all_drawn(draws, draw),
            escaped@ == estimates(draws),
            forall|k: u32| k < samples ==> draw.requires((k,)),
        decreases samples - i,
    {
        let sample = draw(i);
        let ghost before = draws;
        proof {
            draws = before.push(sample);
            assert(draws.drop_last() == before);
        }
        if let Some(value) = sample {
            escaped.push(value);
        }
        i += 1;
    }
    proof {
        assert(all_drawn(draws, draw));
        lemma_no_estimates(draws);
        assert forall|k: int| 0 <= k < draws.len() implies draw.ensures(
            (k as u32,),
            #[trigger] draws[k],
        ) by {
            assert(draws[k as u32 as int] == draws[k]);
        }
    }
    if escaped.len() > 0 {
        let value = mean(&escaped);
        assert(is_mean(mean, estimates(draws), value)) by {
            assert(mean.ensures((&escaped,), value));
        }
        Some(value)
    } else {
        None
    }
}

/// A run of samples has no estimate exactly when all of them are `None`.
proof fn lemma_no_estimates(samples: Seq<Option<u64>>)
    ensures
        estimates(samples).len() == 0 <==> forall|i: int|
            0 <= i < samples.len() ==> #[trigger] samples[i] is None,
    decreases samples.len(),
{
    if samples.len() > 0 {
        let rest = samples.drop_last();
        lemma_no_estimates(rest);
        if estimates(samples).len() == 0 {
            assert forall|i: int| 0 <= i < samples.len() implies #[trigger] samples[i] is None by {
                if i < rest.len() {
                    assert(rest[i] is None);
                }
            }
        } else if samples.last() is None {
            let i = choose|i: int| 0 <= i < rest.len() && !(#[trigger] rest[i] is None);
            assert(samples[i] == rest[i]);
        }
    }
}

/// The number of draws does not change whether a cell escapes, as long as
/// its draws agree: where every draw of a cell stays bounded, or every draw
/// escapes, the average over any number of draws is an estimate exactly when
/// the single draw is one. More draws only refine the estimate.
pub proof fn lemma_sample_count_keeps_classification<
    D: Fn(u32) -> Option<u64>,
    M: Fn(&Vec<u64>) -> u64,
>(single: Option<u64>, average: Option<u64>, samples: u32, draw: &D, mean: &M)
    requires
        samples >= 1,
        is_average(single, 1, draw, mean),
        is_average(average, samples, draw, mean),
        (forall|i: u32, sample: Option<u64>|
            i < samples && #[trigger] draw.ensures((i,), sample) ==> sample is None) || (forall|
            i: u32,
            sample: Option<u64>,
        | i < samples && #[trigger] draw.ensures((i,), sample) ==> sample is Some),
    ensures
        single is Some <==> average is Some,
{
    let one = choose|draws: Seq<Option<u64>>|
        {
            &&& draws.len() == 1
            &&& #[trigger] all_drawn(draws, draw)
            &&& match single {
                None => estimates(draws).len() == 0,
                Some(value) => estimates(draws).len() > 0 && is_mean(
                    mean,
                    estimates(draws),
                    value,
                ),
            }
        };
    let many = choose|draws: Seq<Option<u64>>|
        {
            &&& draws.len() == samples
            &&& #[trigger] all_drawn(draws, draw)
            &&& match average {
                None => estimates(draws).len() == 0,
                Some(value) => estimates(draws).len() > 0 && is_mean(
                    mean,
                    estimates(draws),
                    value,
                ),
            }
        };
    lemma_no_estimates(one);
    lemma_no_estimates(many);
    assert(draw.ensures((0u32,), one[0]));
    assert(draw.ensures((0u32,), many[0]));
    assert forall|i: int| 0 <= i < many.len() implies draw.ensures(
        (i as u32,),
        #[trigger] many[i],
    ) by {
        assert(many[i as u32 as int] == many[i]);
    }
}

/// The odd constant that spreads the cells over the seeds.
pub const SEED_SPREAD: u64 = 0x9E37_79B9_7F4A_7C15;

/// The cell `(x, y)` as one number.
pub open spec fn cell_number(x: u32, y: u32) -> u64 {
    (x * 0x1_0000_0000 + y) as u64
}

/// The seed of one draw of one cell under the seed of the run: the number of
/// the cell, multiplied by `SEED_SPREAD` without the carry, and the number of
/// the draw are folded into the seed of the run.
pub open spec fn seed_of_draw(seed: u64, x: u32, y: u32, draw: u32) -> u64 {
    seed ^ cell_number(x, y).wrapping_mul(SEED_SPREAD) ^ (draw as u64)
}

/// The seed for the random numbers of one draw of one cell. A run that
/// starts every draw from this seed gives the same grid each time, whichever
/// thread computes which cell.
pub fn draw_seed(seed: u64, x: u32, y: u32, draw: u32) -> (mixed: u64)
    ensures
        mixed == seed_of_draw(seed, x, y, draw),
{
    let cell: u64 = x as u64 * 0x1_0000_0000 + y as u64;
    seed ^ cell.wrapping_mul(SEED_SPREAD) ^ (draw as u64)
}

/// Multiplying by `SEED_SPREAD` without the carry sends two numbers to two
/// products.
proof fn lemma_spread_tells_apart(cell: u64, other: u64)
    requires
        cell.wrapping_mul(SEED_SPREAD) == other.wrapping_mul(SEED_SPREAD),
    ensures
        cell == other,
{
    let modulus: int = 0x1_0000_0000_0000_0000;
    let spread: int = 0x9E37_79B9_7F4A_7C15;
    let inverse: int = 0xF1DE_83E1_9937_733D;
    let carry: int = 10771413168148108919;
    assert(spread * inverse == carry * modulus + 1);
    assert forall|number: u64|
        ((#[trigger] number.wrapping_mul(SEED_SPREAD)) * inverse) % modulus == number by {
        let n: int = number as int;
        lemma_mul_mod_noop_left(n * spread, inverse, modulus);
        assert(n * spread * inverse == n + (n * carry) * modulus) by (nonlinear_arith)
            requires
                spread * inverse == carry * modulus + 1,
        ;
        lemma_mod_multiples_vanish(n * carry, n, modulus);
        lemma_small_mod(n as nat, modulus as nat);
    }
    assert(cell.wrapping_mul(SEED_SPREAD) * inverse % modulus == cell);
    assert(other.wrapping_mul(SEED_SPREAD) * inverse % modulus == other);
}

/// Under one seed, two draws of one cell have different seeds, and so have
/// the draws of one number of two cells.
pub proof fn lemma_draw_seeds_differ(
    seed: u64,
    x: u32,
    y: u32,
    draw: u32,
    other_x: u32,
    other_y: u32,
    other_draw: u32,
)
    ensures
        draw != other_draw ==> seed_of_draw(seed, x, y, draw) != seed_of_draw(
            seed,
            x,
            y,
            other_draw,
        ),
        (x, y) != (other_x, other_y) ==> seed_of_draw(seed, x, y, draw) != seed_of_draw(
            seed,
            other_x,
            other_y,
            draw,
        ),
{
    let spread = cell_number(x, y).wrapping_mul(SEED_SPREAD);
    let other_spread = cell_number(other_x, other_y).wrapping_mul(SEED_SPREAD);
    let number = draw as u64;
    let other_number = other_draw as u64;
    assert(number != other_number ==> seed ^ spread ^ number != seed ^ spread ^ other_number)
        by (bit_vector);
    assert(spread != other_spread ==> seed ^ spread ^ number != seed ^ other_spread ^ number)
        by (bit_vector);
    if (x, y) != (other_x, other_y) {
        assert(cell_number(x, y) != cell_number(other_x, other_y));
        if spread == other_spread {
            lemma_spread_tells_apart(cell_number(x, y), cell_number(other_x, other_y));
        }
    }
}

} // verus!
