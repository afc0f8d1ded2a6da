//! The aggregation loop: what the single consumer does with each batch.
//!
//! Every point of a batch is replayed into the density grid. The aggregator
//! keeps the totals of the run and decides, batch by batch, which points are
//! worth a record of their own, whether a snapshot of the grid is due and
//! whether the run has reached its target.

use vstd::prelude::*;
use crate::escape::is_orbit;
use crate::histogram::{tally, tally_all, Histogram};
use crate::number::ImaginaryNumber;
use crate::replay::{collect, is_replay, rasterized};
use crate::sampling::{work, QualifyingPoint};

verus! {

/// The points of a batch that are worth a record: those whose escape time
/// exceeds `above`, in the order of the batch.
pub open spec fn notable(points: Seq<QualifyingPoint>, above: u64) -> Seq<QualifyingPoint>
    decreases points.len(),
{
    if points.len() == 0 {
        Seq::empty()
    } else if points.last().iterations > above {
        notable(points.drop_last(), above).push(points.last())
    } else {
        notable(points.drop_last(), above)
    }
}

/// Whether `visits` holds, for each point of a batch, the cells of a replay
/// of that point.
pub open spec fn are_replays<A, R>(
    advance: A,
    rasterize: R,
    points: Seq<QualifyingPoint>,
    visits: Seq<Seq<(u64, u64)>>,
) -> bool where
    A: Fn(ImaginaryNumber, ImaginaryNumber) -> ImaginaryNumber,
    R: Fn(ImaginaryNumber) -> (u64, u64),
 {
    &&& visits.len() == points.len()
    &&& forall|k: int|
        0 <= k < points.len() ==> is_replay(
            advance,
            rasterize,
            points[k].point,
            points[k].iterations,
            #[trigger] visits[k],
        )
}

/// The point after `due` at which the next snapshot is due, if any total
/// can still reach it.
pub open spec fn save_after(due: u64, interval: u64) -> Option<u64> {
    if due + interval <= u64::MAX {
        Some((due + interval) as u64)
    } else {
        None
    }
}

/// What the consumer has to do after a batch.
pub struct Summary {
    /// The points to write to the record of the run.
    pub notable: Vec<QualifyingPoint>,
    /// Whether a snapshot of the grid is due.
    pub save: bool,
    /// Whether the run has reached its target.
    pub finished: bool,
}

/// The totals and thresholds of a run.
#[derive(Clone, Copy, Debug)]
pub struct Aggregator {
    /// The number of points probed by all workers.
    pub total_probed: u64,
    /// The number of iterations replayed into the grid.
    pub total_points: u64,
    /// The total at which the next snapshot is due; `None` once no total can
    /// reach it.
    pub next_save: Option<u64>,
    /// The distance between two snapshots.
    pub save_interval: u64,
    /// The total at which the run is finished.
    pub target: u64,
    /// The escape time above which a point is recorded.
    pub record_above: u64,
}

impl Aggregator {
    /// The state before the first batch: the first snapshot is due after one
    /// interval, and a point is recorded if its escape time exceeds a tenth
    /// of the iteration limit.
    pub fn new(limit: u64, target: u64, save_interval: u64) -> (a: Aggregator)
        ensures
            a == (Aggregator {
                total_probed: 0,
                total_points: 0,
                next_save: Some(save_interval),
                save_interval,
                target,
                record_above: (limit / 10) as u64,
            }),
    {
        Aggregator {
            total_probed: 0,
            total_points: 0,
            next_save: Some(save_interval),
            save_interval,
            target,
            record_above: limit / 10,
        }
    }

    /// Whether a snapshot is due at `total`.
    pub open spec fn save_due(self, total: nat) -> bool {
        self.next_save matches Some(due) && total >= due
    }

    /// The state after a batch of `probed` probes that stands for `added`
    /// iterations: the totals grow, and the next snapshot moves on by one
    /// interval if one is due now.
    pub open spec fn absorbed(self, probed: u64, added: nat) -> Aggregator {
        let total = self.total_points + added;
        Aggregator {
            total_probed: (self.total_probed + probed) as u64,
            total_points: total as u64,
            next_save: if self.save_due(total as nat) {
                save_after(self.next_save.unwrap(), self.save_interval)
            } else {
                self.next_save
            },
            ..self
        }
    }

    /// Takes in one batch: replays each of its points into the grid, in the
    /// order of the batch, and updates the totals.
    ///
    /// `advance` is the closure of `escapes`; `rasterize` gives the cell of
    /// a value and must only ever give cells of the grid.
    pub fn absorb<A, R>(
        &mut self,
        points: &Vec<QualifyingPoint>,
        probed: u64,
        histogram: &mut Histogram,
        advance: A,
        rasterize: R,
    ) -> (summary: Summary) where
        A: Fn(ImaginaryNumber, ImaginaryNumber) -> ImaginaryNumber,
        R: Fn(ImaginaryNumber) -> (u64, u64),

        requires
            old(histogram).wf(),
            old(histogram).visits() + work(points@) <= u64::MAX,
            old(self).total_points + work(points@) <= u64::MAX,
            old(self).total_probed + probed <= u64::MAX,
            forall|z: ImaginaryNumber, c: ImaginaryNumber| advance.requires((z, c)),
            forall|z: ImaginaryNumber| rasterize.requires((z,)),
            forall|z: ImaginaryNumber, cell: (u64, u64)|
                rasterize.ensures((z,), cell) ==> old(histogram).covers(cell),
        ensures
            *final(self) == old(self).absorbed(probed, work(points@)),
            summary.notable@ == notable(points@, old(self).record_above),
            summary.save == old(self).save_due(final(self).total_points as nat),
            summary.finished == (final(self).total_points >= old(self).target),
            final(histogram).wf(),
            final(histogram).resolution() == old(histogram).resolution(),
            final(histogram).visits() == old(histogram).visits() + work(points@),
            exists|visits: Seq<Seq<(u64, u64)>>|
                {
                    &&& #[trigger] are_replays(advance, rasterize, points@, visits)
                    &&& final(histogram)@ == tally_all(old(histogram)@, visits)
                },
    {
        let mut worth: Vec<QualifyingPoint> = Vec::new();
        let mut added: u64 = 0;
        let ghost mut visits = Seq::<Seq<(u64, u64)>>::empty();
        let mut k: usize = 0;
        while k < points.len()
            invariant
                k <= points.len(),
                added == work(points@.take(k as int)),
                worth@ == notable(points@.take(k as int), self.record_above),
                *self == *old(self),
                histogram.wf(),
                histogram.resolution() == old(histogram).resolution(),
                histogram.visits() == old(histogram).visits() + added,
                old(histogram).visits() + work(points@) <= u64::MAX,
                are_replays(advance, rasterize, points@.take(k as int), visits),
                histogram@ == tally_all(old(histogram)@, visits),
                forall|z: ImaginaryNumber, c: ImaginaryNumber| advance.requires((z, c)),
                forall|z: ImaginaryNumber| rasterize.requires((z,)),
                forall|z: ImaginaryNumber, cell: (u64, u64)|
                    rasterize.ensures((z,), cell) ==> old(histogram).covers(cell),
            decreases points.len() - k,
        {
            let found = points[k];
            let ghost before = histogram@;
            let ghost seen = visits;
            proof {
                assert(points@.take(k + 1).drop_last() =~= points@.take(k as int));
                assert(points@.take(k + 1).last() == found);
                lemma_work_grows(points@, k + 1);
            }
            collect(found.point, found.iterations, histogram, &advance, &rasterize);
            proof {
                let cells = choose|cells: Seq<(u64, u64)>|
                    {
                        &&& #[trigger] is_replay(
                            &advance,
                            &rasterize,
                            found.point,
                            found.iterations,
                            cells,
                        )
                        &&& histogram@ == tally(before, cells)
                    };
                lemma_replay_by_reference(advance, rasterize, found.point, found.iterations, cells);
                visits = seen.push(cells);
                assert(visits.drop_last() =~= seen);
                assert forall|j: int| 0 <= j < k + 1 implies is_replay(
                    advance,
                    rasterize,
                    points@.take(k + 1)[j].point,
                    points@.take(k + 1)[j].iterations,
                    #[trigger] visits[j],
                ) by {
                    if j < k {
                        assert(points@.take(k + 1)[j] == points@.take(k as int)[j]);
                        assert(visits[j] == seen[j]);
                    }
                }
            }
            added = added + found.iterations;
            if found.iterations > self.record_above {
                worth.push(found);
            }
            k += 1;
        }
        proof {
            assert(points@.take(k as int) =~= points@);
        }
        self.total_probed = self.total_probed + probed;
        self.total_points = self.total_points + added;
        let mut save = false;
        match self.next_save {
            Some(due) => {
                if self.total_points >= due {
                    save = true;
                    self.next_save = due.checked_add(self.save_interval);
                }
            },
            None => {},
        }
        Summary { notable: worth, save, finished: self.total_points >= self.target }
    }
}

/// The work of the first `n` points of a batch does not exceed the work of
/// the whole batch.
pub proof fn lemma_work_grows(points: Seq<QualifyingPoint>, n: int)
    requires
        0 <= n <= points.len(),
    ensures
        work(points.take(n)) <= work(points),
    decreases points.len() - n,
{
    if n < points.len() {
        lemma_work_grows(points, n + 1);
        assert(points.take(n + 1).drop_last() =~= points.take(n));
    } else {
        assert(points.take(n) =~= points);
    }
}

/// A closure and a reference to it produce the same replays.
proof fn lemma_replay_by_reference<A, R>(
    advance: A,
    rasterize: R,
    point: ImaginaryNumber,
    iterations: u64,
    cells: Seq<(u64, u64)>,
) where
    A: Fn(ImaginaryNumber, ImaginaryNumber) -> ImaginaryNumber,
    R: Fn(ImaginaryNumber) -> (u64, u64),

    requires
        is_replay(&advance, &rasterize, point, iterations, cells),
    ensures
        is_replay(advance, rasterize, point, iterations, cells),
{
    let orbit = choose|orbit: Seq<ImaginaryNumber>|
        {
            &&& orbit.len() == iterations
            &&& is_orbit(&advance, point, orbit)
            &&& #[trigger] rasterized(&rasterize, orbit, cells)
        };
    assert(is_orbit(advance, point, orbit));
    assert(rasterized(rasterize, orbit, cells));
}

} // verus!
