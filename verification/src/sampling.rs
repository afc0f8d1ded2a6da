//! The bookkeeping of a sampling worker.
//!
//! A worker probes random points. A point qualifies if its orbit escapes,
//! and does so after more than a minimum number of iterations. Qualifying
//! points are gathered in a batch until the escape times of the batch add up
//! to a target, so that every batch stands for about the same amount of
//! work. The batch also counts how many points were probed to fill it.

use vstd::prelude::*;
use crate::escape::{escapes, follows, verdict, walked_to_end};
use crate::number::ImaginaryNumber;

verus! {

/// A point whose orbit escapes, with its escape time.
#[derive(Clone, Copy, Debug)]
pub struct QualifyingPoint {
    pub point: ImaginaryNumber,
    pub iterations: u64,
}

/// The work that a list of points stands for: the sum of their escape times.
pub open spec fn work(points: Seq<QualifyingPoint>) -> nat
    decreases points.len(),
{
    if points.len() == 0 {
        0
    } else {
        work(points.drop_last()) + points.last().iterations as nat
    }
}

/// Whether the outcome of an evaluation qualifies its point: the orbit
/// escaped, after more than `min_iterations` iterations.
pub open spec fn qualifies(outcome: Option<u64>, min_iterations: u64) -> bool {
    outcome matches Some(n) && n > min_iterations
}

/// The list of a batch after one more point was probed with `outcome`.
pub open spec fn recorded(
    points: Seq<QualifyingPoint>,
    point: ImaginaryNumber,
    outcome: Option<u64>,
    min_iterations: u64,
) -> Seq<QualifyingPoint> {
    if qualifies(outcome, min_iterations) {
        points.push(QualifyingPoint { point, iterations: outcome.unwrap() })
    } else {
        points
    }
}

/// The qualifying points that a worker has gathered since its last batch.
pub struct Batch {
    min_iterations: u64,
    target: u64,
    points: Vec<QualifyingPoint>,
    probed: u64,
    iterations_sum: u64,
}

impl Batch {
    /// The escape time that a point must exceed to qualify.
    pub closed spec fn threshold(&self) -> u64 {
        self.min_iterations
    }

    /// The amount of work at which the batch is complete.
    pub closed spec fn goal(&self) -> u64 {
        self.target
    }

    /// The qualifying points, in the order in which they were found.
    pub closed spec fn gathered(&self) -> Seq<QualifyingPoint> {
        self.points@
    }

    /// The number of points probed so far, qualifying or not.
    pub closed spec fn tried(&self) -> nat {
        self.probed as nat
    }

    /// The batch keeps the sum of its escape times at hand, and holds no
    /// point below its threshold.
    pub closed spec fn wf(&self) -> bool {
        &&& self.iterations_sum == work(self.points@)
        &&& forall|i: int|
            0 <= i < self.points@.len() ==> (#[trigger] self.points@[i]).iterations
                > self.min_iterations
    }

    /// Every point of a batch qualified: its escape time exceeds the
    /// threshold.
    pub proof fn lemma_gathered_qualify(&self)
        requires
            self.wf(),
        ensures
            forall|i: int|
                0 <= i < self.gathered().len() ==> (#[trigger] self.gathered()[i]).iterations
                    > self.threshold(),
    {
    }

    /// Whether the batch stands for enough work to be handed on.
    pub open spec fn complete(&self) -> bool {
        work(self.gathered()) >= self.goal()
    }

    /// An empty batch.
    pub fn new(min_iterations: u64, target: u64) -> (b: Batch)
        ensures
            b.wf(),
            b.threshold() == min_iterations,
            b.goal() == target,
            b.gathered() == Seq::<QualifyingPoint>::empty(),
            b.tried() == 0,
    {
        Batch { min_iterations, target, points: Vec::new(), probed: 0, iterations_sum: 0 }
    }

    /// Takes note of a probed point and the outcome of its evaluation: the
    /// point joins the batch if it qualifies, and counts as probed either
    /// way.
    pub fn record(&mut self, point: ImaginaryNumber, outcome: Option<u64>)
        requires
            old(self).wf(),
            old(self).tried() < u64::MAX,
            qualifies(outcome, old(self).threshold()) ==> work(old(self).gathered())
                + outcome.unwrap() <= u64::MAX,
        ensures
            final(self).wf(),
            final(self).threshold() == old(self).threshold(),
            final(self).goal() == old(self).goal(),
            final(self).tried() == old(self).tried() + 1,
            final(self).gathered() == recorded(
                old(self).gathered(),
                point,
                outcome,
                old(self).threshold(),
            ),
    {
        match outcome {
            Some(iterations) => {
                if iterations > self.min_iterations {
                    self.points.push(QualifyingPoint { point, iterations });
                    self.iterations_sum = self.iterations_sum + iterations;
                    proof {
                        assert(self.points@.drop_last() =~= old(self).points@);
                    }
                }
            },
            None => {},
        }
        self.probed = self.probed + 1;
    }

    /// Evaluates a point and takes note of the outcome.
    ///
    /// The closures are those of `escapes`. Whatever walk they produce, the
    /// batch records the point with the verdict of that walk.
    pub fn probe<I, A, B>(
        &mut self,
        point: ImaginaryNumber,
        limit: u64,
        bailout: u64,
        inside: I,
        advance: A,
        beyond: B,
    ) where
        I: Fn(ImaginaryNumber) -> bool,
        A: Fn(ImaginaryNumber, ImaginaryNumber) -> ImaginaryNumber,
        B: Fn(ImaginaryNumber, u64) -> bool,

        requires
            old(self).wf(),
            old(self).tried() < u64::MAX,
            work(old(self).gathered()) + limit <= u64::MAX,
            inside.requires((point,)),
            forall|z: ImaginaryNumber| advance.requires((z, point)),
            forall|z: ImaginaryNumber| beyond.requires((z, bailout)),
        ensures
            final(self).wf(),
            final(self).threshold() == old(self).threshold(),
            final(self).goal() == old(self).goal(),
            final(self).tried() == old(self).tried() + 1,
            exists|rejected: bool, orbit: Seq<ImaginaryNumber>, outside: Seq<bool>|
                {
                    &&& inside.ensures((point,), rejected)
                    &&& follows(advance, beyond, point, bailout, orbit, outside)
                    &&& #[trigger] walked_to_end(rejected, limit, orbit, outside)
                    &&& final(self).gathered() == recorded(
                        old(self).gathered(),
                        point,
                        verdict(outside),
                        old(self).threshold(),
                    )
                },
    {
        let outcome = escapes(point, limit, bailout, inside, advance, beyond);
        self.record(point, outcome);
    }

    /// Tells whether the batch stands for enough work to be handed on.
    pub fn is_complete(&self) -> (r: bool)
        requires
            self.wf(),
        ensures
            r == self.complete(),
    {
        self.iterations_sum >= self.target
    }

    /// The qualifying points gathered so far.
    pub fn points(&self) -> (r: &Vec<QualifyingPoint>)
        ensures
            r@ == self.gathered(),
    {
        &self.points
    }

    /// The number of points probed so far.
    pub fn probed(&self) -> (r: u64)
        ensures
            r == self.tried(),
    {
        self.probed
    }

    /// The sum of the escape times gathered so far.
    pub fn iterations_sum(&self) -> (r: u64)
        requires
            self.wf(),
        ensures
            r == work(self.gathered()),
    {
        self.iterations_sum
    }

    /// Hands the batch on: its points and the number of points probed.
    pub fn into_parts(self) -> (r: (Vec<QualifyingPoint>, u64))
        ensures
            r.0@ == self.gathered(),
            r.1 == self.tried(),
    {
        (self.points, self.probed)
    }
}

} // verus!
