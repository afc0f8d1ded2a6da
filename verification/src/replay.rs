//! Replaying an orbit into the density grid.
//!
//! A point that qualified is known by its coordinates and its escape time
//! only. Its orbit is walked once more from zero, and every value on the way
//! is counted in the cell it falls into.

use vstd::prelude::*;
use crate::escape::{is_orbit, predecessor};
use crate::histogram::{lemma_tally_concat, lemma_tally_none, tally, Histogram};
use crate::number::ImaginaryNumber;

verus! {

/// Whether `cells` are cells that `rasterize` may have given for the values
/// of `orbit`, one for one.
pub open spec fn rasterized<R>(
    rasterize: R,
    orbit: Seq<ImaginaryNumber>,
    cells: Seq<(u64, u64)>,
) -> bool where R: Fn(ImaginaryNumber) -> (u64, u64) {
    &&& cells.len() == orbit.len()
    &&& forall|i: int| 0 <= i < orbit.len() ==> rasterize.ensures((orbit[i],), #[trigger] cells[i])
}

/// Whether `cells` are the cells of a replay for `point`: those of the
/// first `iterations` values of a walk from zero.
pub open spec fn is_replay<A, R>(
    advance: A,
    rasterize: R,
    point: ImaginaryNumber,
    iterations: u64,
    cells: Seq<(u64, u64)>,
) -> bool where
    A: Fn(ImaginaryNumber, ImaginaryNumber) -> ImaginaryNumber,
    R: Fn(ImaginaryNumber) -> (u64, u64),
 {
    exists|orbit: Seq<ImaginaryNumber>|
        {
            &&& orbit.len() == iterations
            &&& is_orbit(advance, point, orbit)
            &&& #[trigger] rasterized(rasterize, orbit, cells)
        }
}

/// Walks the orbit of `point` for `iterations` steps from zero and counts
/// each value in the cell that `rasterize` gives for it.
///
/// `rasterize` must only ever give cells of the grid: a value that falls
/// outside is for the caller's closure to refuse.
pub fn collect<A, R>(
    point: ImaginaryNumber,
    iterations: u64,
    histogram: &mut Histogram,
    advance: A,
    rasterize: R,
) where
    A: Fn(ImaginaryNumber, ImaginaryNumber) -> ImaginaryNumber,
    R: Fn(ImaginaryNumber) -> (u64, u64),

    requires
        old(histogram).wf(),
        old(histogram).visits() + iterations <= u64::MAX,
        forall|z: ImaginaryNumber| advance.requires((z, point)),
        forall|z: ImaginaryNumber| rasterize.requires((z,)),
        forall|z: ImaginaryNumber, cell: (u64, u64)|
            rasterize.ensures((z,), cell) ==> old(histogram).covers(cell),
    ensures
        final(histogram).wf(),
        final(histogram).resolution() == old(histogram).resolution(),
        final(histogram).visits() == old(histogram).visits() + iterations,
        exists|cells: Seq<(u64, u64)>|
            {
                &&& #[trigger] is_replay(advance, rasterize, point, iterations, cells)
                &&& final(histogram)@ == tally(old(histogram)@, cells)
            },
{
    let mut current = ImaginaryNumber::zero();
    let ghost mut orbit = Seq::<ImaginaryNumber>::empty();
    let ghost mut cells = Seq::<(u64, u64)>::empty();
    proof {
        lemma_tally_none(histogram@);
    }
    let mut i: u64 = 0;
    while i < iterations
        invariant
            i <= iterations,
            orbit.len() == i,
            is_orbit(advance, point, orbit),
            rasterized(rasterize, orbit, cells),
            current == predecessor(orbit, i as int),
            histogram.wf(),
            histogram.resolution() == old(histogram).resolution(),
            histogram.visits() == old(histogram).visits() + i,
            old(histogram).visits() + iterations <= u64::MAX,
            histogram@ == tally(old(histogram)@, cells),
            forall|z: ImaginaryNumber| advance.requires((z, point)),
            forall|z: ImaginaryNumber| rasterize.requires((z,)),
            forall|z: ImaginaryNumber, cell: (u64, u64)|
                rasterize.ensures((z,), cell) ==> old(histogram).covers(cell),
        decreases iterations - i,
    {
        let ghost walked = orbit;
        let ghost counted = cells;
        current = advance(current, point);
        let (x, y) = rasterize(current);
        proof {
            orbit = walked.push(current);
            cells = counted.push((x, y));
            assert(is_orbit(advance, point, orbit)) by {
                assert forall|j: int| 0 <= j < orbit.len() implies advance.ensures(
                    (predecessor(orbit, j), point),
                    #[trigger] orbit[j],
                ) by {
                    if j < walked.len() {
                        assert(predecessor(orbit, j) == predecessor(walked, j));
                        assert(orbit[j] == walked[j]);
                    }
                }
            }
            assert(rasterized(rasterize, orbit, cells)) by {
                assert forall|j: int| 0 <= j < orbit.len() implies rasterize.ensures(
                    (orbit[j],),
                    #[trigger] cells[j],
                ) by {
                    if j < walked.len() {
                        assert(orbit[j] == walked[j]);
                        assert(cells[j] == counted[j]);
                    }
                }
            }
            assert(old(histogram).covers((x, y)));
            lemma_tally_concat(old(histogram)@, counted, seq![(x, y)]);
            assert(counted + seq![(x, y)] =~= cells);
        }
        histogram.add_to_histogram(x, y);
        i += 1;
    }
    proof {
        assert(is_replay(advance, rasterize, point, iterations, cells));
    }
}

} // verus!
