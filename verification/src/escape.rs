//! Escape-time evaluation with cycle detection.
//!
//! An orbit starts at zero and is advanced by `z <- z * z + c` for a fixed
//! point `c`. The evaluator walks it until a value leaves the bailout
//! radius, until the orbit is seen to repeat, or until the iteration limit
//! is reached. Repetition is detected against a single reference value that
//! is replaced at iterations 4, 8, 16, ...: a cycle no longer than the
//! current gap between two replacements is caught within one gap.

use vstd::prelude::*;
use crate::number::ImaginaryNumber;

verus! {

/// The iteration at which the reference value is replaced for the first time.
pub const FIRST_REFRESH: u64 = 4;

/// The `k`-th iteration at which the reference value is replaced:
/// 4, 8, 16, ...
pub open spec fn refresh_index(k: nat) -> nat
    decreases k,
{
    if k == 0 {
        4
    } else {
        2 * refresh_index((k - 1) as nat)
    }
}

/// The last iteration before `i` at which the reference value was replaced,
/// searched upwards from the replacement at `r`: the replacement `p` with
/// `p < i <= 2 * p`.
pub open spec fn refresh_before(r: nat, i: nat) -> nat
    decreases i - r,
{
    if r == 0 || i <= 2 * r {
        r
    } else {
        refresh_before(2 * r, i)
    }
}

/// The first iteration at or after `i` at which the reference value is
/// replaced.
pub open spec fn refresh_due(i: nat) -> nat {
    if i <= 4 {
        4
    } else {
        2 * refresh_before(4, i)
    }
}

/// The value that precedes `orbit[i]`: the orbit starts from zero.
pub open spec fn predecessor(orbit: Seq<ImaginaryNumber>, i: int) -> ImaginaryNumber {
    if i <= 0 {
        ImaginaryNumber::origin()
    } else {
        orbit[i - 1]
    }
}

/// The reference value that `orbit[i]` is compared with: zero during the
/// first iterations, afterwards the orbit's value at the last replacement.
pub open spec fn reference_at(orbit: Seq<ImaginaryNumber>, i: int) -> ImaginaryNumber {
    if i <= 4 {
        ImaginaryNumber::origin()
    } else {
        orbit[refresh_before(4, i as nat) as int]
    }
}

/// Whether iteration `i` finds the orbit back at its reference value.
pub open spec fn repeats_at(orbit: Seq<ImaginaryNumber>, i: int) -> bool {
    orbit[i].same(reference_at(orbit, i))
}

/// Whether the walk ends with iteration `i`: the value is outside the
/// bailout radius, or it repeats the reference value.
pub open spec fn stops_at(orbit: Seq<ImaginaryNumber>, outside: Seq<bool>, i: int) -> bool {
    outside[i] || repeats_at(orbit, i)
}

/// `2 * n`, if it is still an iteration index.
pub open spec fn doubled(n: u64) -> Option<u64> {
    if 2 * n <= u64::MAX {
        Some((2 * n) as u64)
    } else {
        None
    }
}

/// The state of cycle detection: the reference value and the iteration at
/// which it is replaced next. `next_refresh` is `None` once that iteration
/// lies beyond every `u64`.
#[derive(Clone, Copy, Debug)]
pub struct CycleDetector {
    pub reference: ImaginaryNumber,
    pub next_refresh: Option<u64>,
}

impl CycleDetector {
    /// The state after `current` was observed at `iteration` without a
    /// repetition: at the scheduled iteration the reference moves to
    /// `current` and the schedule doubles.
    pub open spec fn refreshed(self, iteration: u64, current: ImaginaryNumber) -> CycleDetector {
        if self.next_refresh == Some(iteration) {
            CycleDetector { reference: current, next_refresh: doubled(iteration) }
        } else {
            self
        }
    }

    /// Whether the state is the one that a walk along `orbit` has reached
    /// when it is about to test iteration `i`.
    pub open spec fn tracks(self, orbit: Seq<ImaginaryNumber>, i: int) -> bool {
        &&& self.reference == reference_at(orbit, i)
        &&& self.next_refresh == if refresh_due(i as nat) <= u64::MAX {
            Some(refresh_due(i as nat) as u64)
        } else {
            None
        }
    }

    /// Detection starts with `start` as its reference value, which is first
    /// replaced at iteration 4.
    pub fn new(start: ImaginaryNumber) -> (d: CycleDetector)
        ensures
            d.reference == start,
            d.next_refresh == Some(FIRST_REFRESH),
    {
        CycleDetector { reference: start, next_refresh: Some(FIRST_REFRESH) }
    }

    /// Observes the orbit's value at `iteration`. Returns `true`, and leaves
    /// the state alone, if the value equals the reference value; otherwise
    /// replaces the reference value if this is the scheduled iteration.
    pub fn has_cycle(&mut self, iteration: u64, current: ImaginaryNumber) -> (r: bool)
        ensures
            r == current.same(old(self).reference),
            r ==> *final(self) == *old(self),
            !r ==> *final(self) == old(self).refreshed(iteration, current),
    {
        if current == self.reference {
            return true;
        }
        if self.next_refresh == Some(iteration) {
            self.reference = current;
            self.next_refresh = iteration.checked_mul(2);
        }
        false
    }
}

/// Whether `orbit` is a walk that `advance` may have produced for `point`:
/// each value is an outcome of `advance` on the value before it, the first
/// on zero.
pub open spec fn is_orbit<A>(advance: A, point: ImaginaryNumber, orbit: Seq<ImaginaryNumber>) -> bool where
    A: Fn(ImaginaryNumber, ImaginaryNumber) -> ImaginaryNumber,
 {
    forall|i: int|
        0 <= i < orbit.len() ==> advance.ensures(
            (predecessor(orbit, i), point),
            #[trigger] orbit[i],
        )
}

/// Whether `orbit` and `outside` are what the closures may have produced
/// on a walk for `point`: the values are a walk of `advance`, and each flag
/// is an outcome of `beyond` on its value.
pub open spec fn follows<A, B>(
    advance: A,
    beyond: B,
    point: ImaginaryNumber,
    bailout: u64,
    orbit: Seq<ImaginaryNumber>,
    outside: Seq<bool>,
) -> bool where
    A: Fn(ImaginaryNumber, ImaginaryNumber) -> ImaginaryNumber,
    B: Fn(ImaginaryNumber, u64) -> bool,
 {
    &&& orbit.len() == outside.len()
    &&& is_orbit(advance, point, orbit)
    &&& forall|i: int|
        0 <= i < orbit.len() ==> beyond.ensures((orbit[i], bailout), #[trigger] outside[i])
}

/// Whether a walk of `orbit.len()` iterations is a complete evaluation under
/// the iteration limit: no iteration before the last one stops the walk, and
/// a walk shorter than the limit ends with an iteration that does. A point
/// that was rejected beforehand is not walked at all.
pub open spec fn walked_to_end(
    rejected: bool,
    limit: u64,
    orbit: Seq<ImaginaryNumber>,
    outside: Seq<bool>,
) -> bool {
    &&& orbit.len() == outside.len()
    &&& orbit.len() <= limit
    &&& rejected ==> orbit.len() == 0
    &&& forall|i: int| 0 <= i < orbit.len() - 1 ==> !#[trigger] stops_at(orbit, outside, i)
    &&& !rejected && orbit.len() < limit ==> orbit.len() > 0 && stops_at(
        orbit,
        outside,
        orbit.len() - 1,
    )
}

/// What a complete evaluation returns: the index of its last iteration if
/// that one left the bailout radius, nothing otherwise.
pub open spec fn verdict(outside: Seq<bool>) -> Option<u64> {
    if outside.len() > 0 && outside.last() {
        Some((outside.len() - 1) as u64)
    } else {
        None
    }
}

/// Determines after how many iterations the orbit of `point` escapes.
///
/// The arithmetic is supplied by the caller: `inside` tells whether the
/// point lies in a region that is known never to escape, `advance` maps the
/// current value and the point to the next value, and `beyond` tells whether
/// a value lies outside the bailout radius.
///
/// A point that `inside` accepts yields `None` without any iteration.
/// Otherwise the orbit is walked from zero. The first iteration whose value
/// is `beyond` the bailout ends the walk with its index; the first whose
/// value equals the reference value of cycle detection ends it with `None`;
/// so does reaching `limit`.
pub fn escapes<I, A, B>(
    point: ImaginaryNumber,
    limit: u64,
    bailout: u64,
    inside: I,
    advance: A,
    beyond: B,
) -> (r: Option<u64>) where
    I: Fn(ImaginaryNumber) -> bool,
    A: Fn(ImaginaryNumber, ImaginaryNumber) -> ImaginaryNumber,
    B: Fn(ImaginaryNumber, u64) -> bool,

    requires
        inside.requires((point,)),
        forall|z: ImaginaryNumber| advance.requires((z, point)),
        forall|z: ImaginaryNumber| beyond.requires((z, bailout)),
    ensures
        exists|rejected: bool, orbit: Seq<ImaginaryNumber>, outside: Seq<bool>|
            {
                &&& inside.ensures((point,), rejected)
                &&& follows(advance, beyond, point, bailout, orbit, outside)
                &&& #[trigger] walked_to_end(rejected, limit, orbit, outside)
                &&& r == verdict(outside)
            },
        r matches Some(n) ==> n < limit,
{
    let rejected = inside(point);
    if rejected {
        proof {
            let orbit = Seq::<ImaginaryNumber>::empty();
            let outside = Seq::<bool>::empty();
            assert(follows(advance, beyond, point, bailout, orbit, outside));
            assert(walked_to_end(rejected, limit, orbit, outside));
        }
        return None;
    }
    let mut current = ImaginaryNumber::zero();
    let mut detector = CycleDetector::new(current);
    let ghost mut orbit = Seq::<ImaginaryNumber>::empty();
    let ghost mut outside = Seq::<bool>::empty();
    let mut i: u64 = 0;
    while i < limit
        invariant
            i <= limit,
            orbit.len() == i,
            follows(advance, beyond, point, bailout, orbit, outside),
            forall|j: int| 0 <= j < i ==> !#[trigger] stops_at(orbit, outside, j),
            current == predecessor(orbit, i as int),
            detector.tracks(orbit, i as int),
            forall|z: ImaginaryNumber| advance.requires((z, point)),
            forall|z: ImaginaryNumber| beyond.requires((z, bailout)),
            inside.ensures((point,), rejected),
            !rejected,
        decreases limit - i,
    {
        let ghost before = orbit;
        let ghost flags = outside;
        current = advance(current, point);
        let out = beyond(current, bailout);
        proof {
            orbit = before.push(current);
            outside = flags.push(out);
            lemma_walk_extends(before, flags, current, out);
            assert(follows(advance, beyond, point, bailout, orbit, outside)) by {
                assert forall|j: int| 0 <= j < orbit.len() implies advance.ensures(
                    (predecessor(orbit, j), point),
                    #[trigger] orbit[j],
                ) by {
                    if j < before.len() {
                        assert(predecessor(orbit, j) == predecessor(before, j));
                        assert(orbit[j] == before[j]);
                    }
                }
                assert forall|j: int| 0 <= j < orbit.len() implies beyond.ensures(
                    (orbit[j], bailout),
                    #[trigger] outside[j],
                ) by {
                    if j < before.len() {
                        assert(orbit[j] == before[j]);
                        assert(outside[j] == flags[j]);
                    }
                }
            }
        }
        if out {
            proof {
                assert(stops_at(orbit, outside, i as int));
                assert(walked_to_end(rejected, limit, orbit, outside));
                assert(outside.last());
            }
            return Some(i);
        }
        if detector.has_cycle(i, current) {
            proof {
                assert(stops_at(orbit, outside, i as int));
                assert(walked_to_end(rejected, limit, orbit, outside));
            }
            return None;
        }
        proof {
            assert(!stops_at(orbit, outside, i as int));
            lemma_tracking_step(orbit, i as nat);
        }
        i += 1;
    }
    proof {
        assert(walked_to_end(rejected, limit, orbit, outside));
        if outside.len() > 0 {
            assert(!stops_at(orbit, outside, outside.len() - 1));
        }
    }
    None
}

/// Appending an iteration to a walk changes neither the reference values of
/// the earlier iterations nor that of the new one, so what stopped or did not
/// stop the walk before still does.
pub proof fn lemma_walk_extends(
    orbit: Seq<ImaginaryNumber>,
    outside: Seq<bool>,
    value: ImaginaryNumber,
    flag: bool,
)
    requires
        orbit.len() == outside.len(),
    ensures
        forall|j: int|
            0 <= j <= orbit.len() ==> #[trigger] reference_at(orbit.push(value), j)
                == reference_at(orbit, j),
        forall|j: int|
            0 <= j < orbit.len() ==> #[trigger] stops_at(orbit.push(value), outside.push(flag), j)
                == stops_at(orbit, outside, j),
{
    assert forall|j: int| 0 <= j <= orbit.len() implies #[trigger] reference_at(
        orbit.push(value),
        j,
    ) == reference_at(orbit, j) by {
        if j > 4 {
            lemma_refresh_before_step(4, j as nat);
        }
    }
}

/// How the reference value and the schedule move from one iteration to the
/// next when the walk goes on: at a scheduled iteration the reference
/// becomes the orbit's value there and the schedule doubles, at any other
/// both stay.
pub proof fn lemma_tracking_step(orbit: Seq<ImaginaryNumber>, i: nat)
    requires
        i < orbit.len(),
    ensures
        refresh_due(i) >= 4,
        refresh_due(i) >= i,
        i == refresh_due(i) ==> reference_at(orbit, i as int + 1) == orbit[i as int] && refresh_due(i + 1)
            == 2 * i,
        i != refresh_due(i) ==> reference_at(orbit, i as int + 1) == reference_at(orbit, i as int)
            && refresh_due(i + 1) == refresh_due(i),
{
    if i > 4 {
        lemma_refresh_before_step(4, i);
    } else if i == 4 {
        assert(refresh_before(4, 5) == 4);
    }
}

/// A cycle is cut off. If the values of a complete walk repeat with `period`
/// from iteration `start` on, and the `k`-th replacement of the reference
/// value comes no earlier than `start` and spans at least one period, then
/// the walk is over one period after that replacement at the latest, and no
/// escape is reported for a later iteration.
pub proof fn lemma_cycle_is_cut_off(
    rejected: bool,
    limit: u64,
    orbit: Seq<ImaginaryNumber>,
    outside: Seq<bool>,
    start: nat,
    period: nat,
    k: nat,
)
    requires
        walked_to_end(rejected, limit, orbit, outside),
        period >= 1,
        forall|i: int|
            start <= i && i + period < orbit.len() ==> (#[trigger] orbit[i + period]).same(
                orbit[i],
            ),
        start <= refresh_index(k),
        period <= refresh_index(k),
    ensures
        orbit.len() <= refresh_index(k) + period + 1,
        verdict(outside) matches Some(n) ==> n <= refresh_index(k) + period,
{
    let p = refresh_index(k);
    let j = (p + period) as int;
    lemma_refresh_index_grows(0, k);
    if orbit.len() > j + 1 {
        lemma_refresh_schedule(k, j as nat);
        assert(reference_at(orbit, j) == orbit[p as int]);
        assert(orbit[p as int + period].same(orbit[p as int]));
        assert(stops_at(orbit, outside, j));
    }
}

/// A point whose first value already lies outside the bailout radius
/// escapes at iteration 0: the walk ends there, and cycle detection has no
/// say in it.
pub proof fn lemma_escape_at_once(limit: u64, orbit: Seq<ImaginaryNumber>, outside: Seq<bool>)
    requires
        walked_to_end(false, limit, orbit, outside),
        limit > 0,
        outside.len() > 0 ==> outside[0],
    ensures
        orbit.len() == 1,
        verdict(outside) == Some(0u64),
{
    if orbit.len() > 1 {
        assert(stops_at(orbit, outside, 0));
    }
}

/// An evaluation never reports an escape that it did not see: the reported
/// iteration is below the limit, its value was outside the bailout radius,
/// and no earlier iteration was outside or repeated the reference value.
pub proof fn lemma_verdict_is_first_stop(
    rejected: bool,
    limit: u64,
    orbit: Seq<ImaginaryNumber>,
    outside: Seq<bool>,
)
    requires
        walked_to_end(rejected, limit, orbit, outside),
    ensures
        rejected ==> verdict(outside).is_none(),
        verdict(outside) matches Some(n) ==> {
            &&& n < limit
            &&& n + 1 == orbit.len()
            &&& outside[n as int]
            &&& forall|i: int| 0 <= i < n ==> !outside[i] && !repeats_at(orbit, i)
        },
        verdict(outside).is_none() ==> forall|i: int| 0 <= i < outside.len() ==> !outside[i],
{
    if outside.len() > 0 && outside.last() {
        let n = outside.len() - 1;
        assert forall|i: int| 0 <= i < n implies !outside[i] && !repeats_at(orbit, i) by {
            assert(!stops_at(orbit, outside, i));
        }
    } else {
        assert forall|i: int| 0 <= i < outside.len() implies !outside[i] by {
            if i < outside.len() - 1 {
                assert(!stops_at(orbit, outside, i));
            }
        }
    }
}

/// Between a replacement at `r` and iteration `i` the search finds a
/// replacement `p` with `r <= p < i <= 2 * p`, and moving on by one
/// iteration moves it exactly when `i` itself is the next replacement.
pub proof fn lemma_refresh_before_step(r: nat, i: nat)
    requires
        0 < r < i,
    ensures
        r <= refresh_before(r, i) < i <= 2 * refresh_before(r, i),
        refresh_before(r, i + 1) == if i == 2 * refresh_before(r, i) {
            i
        } else {
            refresh_before(r, i)
        },
    decreases i - r,
{
    if i > 2 * r {
        lemma_refresh_before_step(2 * r, i);
        assert(refresh_before(r, i + 1) == refresh_before(2 * r, i + 1));
    } else if i == 2 * r {
        assert(refresh_before(r, i + 1) == refresh_before(2 * r, i + 1));
        assert(refresh_before(2 * r, i + 1) == 2 * r);
    }
}

/// The reference value is replaced at the iterations 4, 8, 16, ...: between
/// the `k`-th of them and the next, the orbit is compared with its value at
/// the `k`-th.
pub proof fn lemma_refresh_schedule(k: nat, i: nat)
    requires
        refresh_index(k) < i <= 2 * refresh_index(k),
    ensures
        refresh_before(4, i) == refresh_index(k),
        refresh_due(i) == refresh_index(k + 1),
{
    lemma_refresh_climb(0, k, i);
}

proof fn lemma_refresh_index_grows(j: nat, k: nat)
    requires
        j <= k,
    ensures
        4 <= refresh_index(j) <= refresh_index(k),
        j < k ==> 2 * refresh_index(j) <= refresh_index(k),
    decreases k,
{
    if j < k {
        lemma_refresh_index_grows(j, (k - 1) as nat);
    } else if k > 0 {
        lemma_refresh_index_grows((k - 1) as nat, (k - 1) as nat);
    }
}

proof fn lemma_refresh_climb(j: nat, k: nat, i: nat)
    requires
        j <= k,
        refresh_index(k) < i <= 2 * refresh_index(k),
    ensures
        refresh_before(refresh_index(j), i) == refresh_index(k),
    decreases k - j,
{
    lemma_refresh_index_grows(j, k);
    if j < k {
        lemma_refresh_climb(j + 1, k, i);
    }
}

} // verus!
