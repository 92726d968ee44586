//! The escape-time iteration: how long an orbit stays inside the escape
//! radius, and the color that follows from it.

use vstd::prelude::*;
use crate::color::{ramp, Color};

verus! {

/// True when `orbit` starts at `start` and each of its points is followed by
/// a point that `step` returns for it.
pub open spec fn is_orbit<Z, S: Fn(Z) -> Z>(orbit: Seq<Z>, start: Z, step: &S) -> bool {
    &&& orbit.len() > 0
    &&& orbit[0] == start
    &&& forall|k: int|
        #![trigger orbit[k]]
        0 <= k < orbit.len() - 1 ==> step.ensures((orbit[k],), orbit[k + 1])
}

/// True when `escaped` answers no for each of the first `count` points of
/// `orbit`.
pub open spec fn bounded_for<Z, E: Fn(Z) -> bool>(orbit: Seq<Z>, count: int, escaped: &E) -> bool {
    forall|k: int| #![trigger orbit[k]] 0 <= k < count ==> escaped.ensures((orbit[k],), false)
}

/// True when `orbit` shows that iterating `step` from `start` comes to
/// `found` within `budget` iterations. For `Some(i)` the orbit has the points
/// `0..=i`, `escaped` answers no for the first `i` of them and yes for point
/// `i`, and `i < budget`. For `None` the orbit has the points `0..=budget`
/// and `escaped` answers no for each of the points `0..budget`.
pub open spec fn witnesses<Z, E: Fn(Z) -> bool, S: Fn(Z) -> Z>(
    orbit: Seq<Z>,
    start: Z,
    budget: u64,
    escaped: &E,
    step: &S,
    found: Option<u64>,
) -> bool {
    &&& is_orbit(orbit, start, step)
    &&& match found {
        Some(i) => {
            &&& i < budget
            &&& orbit.len() == i + 1
            &&& bounded_for(orbit, i as int, escaped)
            &&& escaped.ensures((orbit[i as int],), true)
        },
        None => {
            &&& orbit.len() == budget + 1
            &&& bounded_for(orbit, budget as int, escaped)
        },
    }
}

/// True when `found` is what iterating `step` from `start` comes to within
/// `budget` iterations: the iteration at which `escaped` first holds of the
/// current point, or `None` where it holds at no iteration below `budget`.
pub open spec fn escapes_at<Z, E: Fn(Z) -> bool, S: Fn(Z) -> Z>(
    start: Z,
    budget: u64,
    escaped: &E,
    step: &S,
    found: Option<u64>,
) -> bool {
    exists|orbit: Seq<Z>| #[trigger] witnesses(orbit, start, budget, escaped, step, found)
}

/// Iterates `step` from `start` and returns the index of the first
/// iteration, below `budget`, at which `escaped` holds of the current point;
/// `None` if there is none. The point is tested before it is stepped, so the
/// starting point is tested at iteration 0.
pub fn escape_time<Z: Copy, E: Fn(Z) -> bool, S: Fn(Z) -> Z>(
    start: Z,
    budget: u64,
    escaped: &E,
    step: &S,
) -> (found: Option<u64>)
    requires
        forall|z: Z| #[trigger] escaped.requires((z,)),
        forall|z: Z| #[trigger] step.requires((z,)),
    ensures
        escapes_at(start, budget, escaped, step, found),
{
    let mut z = start;
    let mut i: u64 = 0;
    let ghost mut orbit: Seq<Z> = seq![start];
    while i < budget
        invariant
            i <= budget,
            forall|z: Z| #[trigger] escaped.requires((z,)),
            forall|z: Z| #[trigger] step.requires((z,)),
            is_orbit(orbit, start, step),
            orbit.len() == i + 1,
            orbit[i as int] == z,
            bounded_for(orbit, i as int, escaped),
        decreases budget - i,
    {
        if escaped(z) {
            assert(witnesses(orbit, start, budget, escaped, step, Some(i)));
            return Some(i);
        }
        let next = step(z);
        proof {
            let longer = orbit.push(next);
            assert forall|k: int| #![trigger longer[k]] 0 <= k < longer.len() - 1 implies step.ensures(
                (longer[k],),
                longer[k + 1],
            ) by {
                if k < orbit.len() - 1 {
                    assert(longer[k] == orbit[k]);
                    assert(longer[k + 1] == orbit[k + 1]);
                }
            }
            assert forall|k: int| #![trigger longer[k]] 0 <= k < i + 1 implies escaped.ensures(
                (longer[k],),
                false,
            ) by {
                assert(longer[k] == orbit[k]);
            }
            orbit = longer;
        }
        z = next;
        i += 1;
    }
    assert(witnesses(orbit, start, budget, escaped, step, None));
    None
}

/// The color of a point: the brightness ramp applied to the iteration at
/// which its orbit escapes within `budget` iterations.
pub fn evaluate<Z: Copy, E: Fn(Z) -> bool, S: Fn(Z) -> Z>(
    start: Z,
    budget: u64,
    escaped: &E,
    step: &S,
) -> (color: Color)
    requires
        forall|z: Z| #[trigger] escaped.requires((z,)),
        forall|z: Z| #[trigger] step.requires((z,)),
    ensures
        exists|found: Option<u64>|
            #[trigger] escapes_at(start, budget, escaped, step, found) && color == ramp(found),
{
    Color::from_escape(escape_time(start, budget, escaped, step))
}

/// True when `escaped` and `step` can each return only one value for a
/// point.
pub open spec fn single_valued<Z, E: Fn(Z) -> bool, S: Fn(Z) -> Z>(escaped: &E, step: &S) -> bool {
    &&& forall|z: Z, first: bool, second: bool|
        #![trigger escaped.ensures((z,), first), escaped.ensures((z,), second)]
        escaped.ensures((z,), first) && escaped.ensures((z,), second) ==> first == second
    &&& forall|z: Z, first: Z, second: Z|
        #![trigger step.ensures((z,), first), step.ensures((z,), second)]
        step.ensures((z,), first) && step.ensures((z,), second) ==> first == second
}

/// Two orbits of one starting point hold the same points as far as both go.
proof fn orbits_agree<Z, E: Fn(Z) -> bool, S: Fn(Z) -> Z>(
    left: Seq<Z>,
    right: Seq<Z>,
    start: Z,
    escaped: &E,
    step: &S,
    k: int,
)
    requires
        is_orbit(left, start, step),
        is_orbit(right, start, step),
        single_valued(escaped, step),
        0 <= k < left.len(),
        k < right.len(),
    ensures
        left[k] == right[k],
    decreases k,
{
    if k > 0 {
        orbits_agree(left, right, start, escaped, step, k - 1);
        assert(step.ensures((left[k - 1],), left[k - 1 + 1]));
        assert(step.ensures((right[k - 1],), right[k - 1 + 1]));
    }
}

/// The escape time is a function of its inputs: where the test and the step
/// return one value per point, a starting point and a budget have one
/// escape time.
pub proof fn escape_time_is_determined<Z, E: Fn(Z) -> bool, S: Fn(Z) -> Z>(
    start: Z,
    budget: u64,
    escaped: &E,
    step: &S,
    first: Option<u64>,
    second: Option<u64>,
)
    requires
        escapes_at(start, budget, escaped, step, first),
        escapes_at(start, budget, escaped, step, second),
        single_valued(escaped, step),
    ensures
        first == second,
{
    let left = choose|orbit: Seq<Z>|
        #[trigger] witnesses(orbit, start, budget, escaped, step, first);
    let right = choose|orbit: Seq<Z>|
        #[trigger] witnesses(orbit, start, budget, escaped, step, second);
    // The earlier escape, if the two differ, is a point that one orbit
    // calls escaped and the other one bounded.
    let at: int = match (first, second) {
        (Some(i), Some(j)) => if i <= j { i as int } else { j as int },
        (Some(i), None) => i as int,
        (None, Some(j)) => j as int,
        (None, None) => 0,
    };
    if first != second {
        orbits_agree(left, right, start, escaped, step, at);
        assert(escaped.ensures((left[at],), true) || escaped.ensures((right[at],), true));
        assert(escaped.ensures((left[at],), false) || escaped.ensures((right[at],), false));
    }
}

/// An orbit that starts at a point which `step` maps to itself stays there.
proof fn orbit_of_fixed_point<Z, E: Fn(Z) -> bool, S: Fn(Z) -> Z>(
    orbit: Seq<Z>,
    start: Z,
    escaped: &E,
    step: &S,
    k: int,
)
    requires
        is_orbit(orbit, start, step),
        single_valued(escaped, step),
        step.ensures((start,), start),
        0 <= k < orbit.len(),
    ensures
        orbit[k] == start,
    decreases k,
{
    if k > 0 {
        orbit_of_fixed_point(orbit, start, escaped, step, k - 1);
        assert(step.ensures((orbit[k - 1],), orbit[k - 1 + 1]));
    }
}

/// A starting point inside the escape radius that `step` maps to itself
/// never escapes, whatever the budget.
pub proof fn fixed_point_never_escapes<Z, E: Fn(Z) -> bool, S: Fn(Z) -> Z>(
    start: Z,
    budget: u64,
    escaped: &E,
    step: &S,
    found: Option<u64>,
)
    requires
        escapes_at(start, budget, escaped, step, found),
        single_valued(escaped, step),
        step.ensures((start,), start),
        escaped.ensures((start,), false),
    ensures
        found is None,
{
    if let Some(i) = found {
        let orbit = choose|orbit: Seq<Z>|
            #[trigger] witnesses(orbit, start, budget, escaped, step, found);
        orbit_of_fixed_point(orbit, start, escaped, step, i as int);
    }
}

} // verus!
