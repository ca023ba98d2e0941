//! The escape-time loop.
//!
//! Starting from a point, the loop applies a step until the current value
//! leaves the bounded region or the iteration cap is reached. The step and the
//! boundedness test are supplied by the caller, so that the loop itself does
//! not depend on how points are represented.

use vstd::prelude::*;

verus! {

/// `f` gives one result for each argument.
pub open spec fn deterministic<A, R, F: Fn(A) -> R>(f: F) -> bool {
    forall|a: A, r1: R, r2: R|
        call_ensures(f, (a,), r1) && call_ensures(f, (a,), r2) ==> r1 == r2
}

/// `orbit` starts at `start` and each of its values is `step` of the one before.
pub open spec fn is_orbit<Z, S: Fn(Z) -> Z>(step: S, start: Z, orbit: Seq<Z>) -> bool {
    &&& orbit.len() >= 1
    &&& orbit[0] == start
    &&& forall|i: int| 0 <= i < orbit.len() - 1 ==> call_ensures(step, (#[trigger] orbit[i],), orbit[i + 1])
}

/// `r` is what the escape-time loop yields along `orbit` under cap `cap`: the
/// number of steps taken and the value reached. Every value before the last is
/// bounded, and the last one is unbounded unless the cap was reached.
pub open spec fn escape_along<Z, S: Fn(Z) -> Z, B: Fn(Z) -> bool>(
    step: S,
    bounded: B,
    start: Z,
    cap: nat,
    orbit: Seq<Z>,
    r: (u16, Z),
) -> bool {
    &&& is_orbit(step, start, orbit)
    &&& orbit.len() == r.0 + 1
    &&& r.1 == orbit[r.0 as int]
    &&& r.0 <= cap
    &&& forall|i: int| 0 <= i < r.0 ==> call_ensures(bounded, (#[trigger] orbit[i],), true)
    &&& r.0 < cap ==> call_ensures(bounded, (orbit[r.0 as int],), false)
}

/// `r` is a possible result of the escape-time loop from `start` under cap `cap`.
pub open spec fn escapes_as<Z, S: Fn(Z) -> Z, B: Fn(Z) -> bool>(
    step: S,
    bounded: B,
    start: Z,
    cap: nat,
    r: (u16, Z),
) -> bool {
    exists|orbit: Seq<Z>| escape_along(step, bounded, start, cap, orbit, r)
}

/// Runs the escape-time loop from `start`: applies `step` while the value is
/// `bounded` and fewer than `cap` steps were taken. Returns the number of steps
/// and the last value; `cap` steps means the point never escaped.
pub fn escape_time<Z: Copy, S: Fn(Z) -> Z, B: Fn(Z) -> bool>(
    start: Z,
    step: S,
    bounded: B,
    cap: u16,
) -> (r: (u16, Z))
    requires
        forall|z: Z| call_requires(step, (z,)),
        forall|z: Z| call_requires(bounded, (z,)),
    ensures
        escapes_as(step, bounded, start, cap as nat, r),
{
    let mut z = start;
    let mut iter: u16 = 0;
    let ghost mut orbit: Seq<Z> = seq![start];
    while iter < cap
        invariant_except_break
            iter <= cap,
            is_orbit(step, start, orbit),
            orbit.len() == iter + 1,
            z == orbit[iter as int],
            forall|i: int| 0 <= i < iter ==> call_ensures(bounded, (#[trigger] orbit[i],), true),
        invariant
            forall|z: Z| call_requires(step, (z,)),
            forall|z: Z| call_requires(bounded, (z,)),
        ensures
            escape_along(step, bounded, start, cap as nat, orbit, (iter, z)),
        decreases cap - iter,
    {
        if !bounded(z) {
            break;
        }
        let next = step(z);
        proof {
            orbit = orbit.push(next);
        }
        z = next;
        iter += 1;
    }
    (iter, z)
}

/// Raising the iteration cap never lowers the escape count, and a point that
/// escaped under the lower cap escapes at the same step, with the same value,
/// under the higher one: the escape count is a cap-monotone function of the
/// point whenever the step and the boundedness test are functions.
pub proof fn lemma_escape_cap_monotone<Z, S: Fn(Z) -> Z, B: Fn(Z) -> bool>(
    step: S,
    bounded: B,
    start: Z,
    cap1: nat,
    cap2: nat,
    r1: (u16, Z),
    r2: (u16, Z),
)
    requires
        deterministic(step),
        deterministic(bounded),
        cap1 <= cap2,
        escapes_as(step, bounded, start, cap1, r1),
        escapes_as(step, bounded, start, cap2, r2),
    ensures
        r1.0 <= r2.0,
        r1.0 < cap1 ==> r2 == r1,
{
    let o1 = choose|o: Seq<Z>| escape_along(step, bounded, start, cap1, o, r1);
    let o2 = choose|o: Seq<Z>| escape_along(step, bounded, start, cap2, o, r2);
    let n: int = if r1.0 <= r2.0 { r1.0 as int } else { r2.0 as int };
    lemma_orbits_agree(step, start, o1, o2, n);
    if r2.0 < r1.0 {
        assert(call_ensures(bounded, (o1[r2.0 as int],), true));
        assert(call_ensures(bounded, (o2[r2.0 as int],), false));
    }
    if r1.0 < cap1 && r1.0 < r2.0 {
        assert(call_ensures(bounded, (o2[r1.0 as int],), true));
        assert(call_ensures(bounded, (o1[r1.0 as int],), false));
    }
}

/// Two orbits of a deterministic step from one start agree on their common part.
proof fn lemma_orbits_agree<Z, S: Fn(Z) -> Z>(step: S, start: Z, o1: Seq<Z>, o2: Seq<Z>, n: int)
    requires
        deterministic(step),
        is_orbit(step, start, o1),
        is_orbit(step, start, o2),
        0 <= n < o1.len(),
        n < o2.len(),
    ensures
        forall|i: int| 0 <= i <= n ==> o1[i] == o2[i],
    decreases n,
{
    if n > 0 {
        lemma_orbits_agree(step, start, o1, o2, n - 1);
        assert(call_ensures(step, (o1[n - 1],), o1[n]));
        assert(call_ensures(step, (o2[n - 1],), o2[n]));
    }
}

} // verus!
