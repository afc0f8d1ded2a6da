//! The density grid: a fixed-resolution table of visit counts.
//!
//! A cell is a pair `(x, y)` with `x` below the horizontal and `y` below the
//! vertical resolution. The grid maps every cell to the number of times it
//! was visited. Counts only grow.

use vstd::prelude::*;
use vstd::multiset::Multiset;
use vstd::seq_lib::lemma_multiset_commutative;

verus! {

/// The sum of all counts of a table.
pub open spec fn sum(counts: Seq<u64>) -> nat
    decreases counts.len(),
{
    if counts.len() == 0 {
        0
    } else {
        sum(counts.drop_last()) + counts.last() as nat
    }
}

/// The grid after the cells of `visits` were visited once each, in any
/// order: every cell's count is raised by the number of times it occurs.
pub open spec fn tally(grid: Map<(u64, u64), nat>, visits: Seq<(u64, u64)>) -> Map<
    (u64, u64),
    nat,
> {
    Map::new(
        |cell: (u64, u64)| grid.dom().contains(cell),
        |cell: (u64, u64)| grid[cell] + visits.to_multiset().count(cell),
    )
}

/// The cells of all orbits of `orbits`, as often as they occur.
pub open spec fn all_visits(orbits: Seq<Seq<(u64, u64)>>) -> Multiset<(u64, u64)>
    decreases orbits.len(),
{
    if orbits.len() == 0 {
        Multiset::empty()
    } else {
        all_visits(orbits.drop_last()).add(orbits.last().to_multiset())
    }
}

/// The grid after every orbit of `orbits` was replayed into it.
pub open spec fn tally_all(grid: Map<(u64, u64), nat>, orbits: Seq<Seq<(u64, u64)>>) -> Map<
    (u64, u64),
    nat,
>
    decreases orbits.len(),
{
    if orbits.len() == 0 {
        grid
    } else {
        tally(tally_all(grid, orbits.drop_last()), orbits.last())
    }
}

/// A two-dimensional table of visit counts.
pub struct Histogram {
    resolution_x: u64,
    resolution_y: u64,
    total: u64,
    data: Vec<u64>,
}

impl View for Histogram {
    type V = Map<(u64, u64), nat>;

    /// The count of every cell of the grid.
    closed spec fn view(&self) -> Map<(u64, u64), nat> {
        Map::new(
            |cell: (u64, u64)| cell.0 < self.resolution_x && cell.1 < self.resolution_y,
            |cell: (u64, u64)| self.data@[cell.0 * self.resolution_y + cell.1] as nat,
        )
    }
}

impl Histogram {
    /// The number of columns and of rows.
    pub closed spec fn resolution(&self) -> (u64, u64) {
        (self.resolution_x, self.resolution_y)
    }

    /// The number of visits counted so far.
    pub closed spec fn visits(&self) -> nat {
        self.total as nat
    }

    /// The counts as they are stored: column by column, the cell `(x, y)` at
    /// position `x * resolution.1 + y`.
    pub closed spec fn cells(&self) -> Seq<u64> {
        self.data@
    }

    /// Whether `cell` lies on the grid.
    pub open spec fn covers(&self, cell: (u64, u64)) -> bool {
        cell.0 < self.resolution().0 && cell.1 < self.resolution().1
    }

    /// The table holds one count per cell, both resolutions fit in 32 bits,
    /// and the number of visits is the sum of all counts.
    pub closed spec fn wf(&self) -> bool {
        &&& self.resolution_x <= u32::MAX
        &&& self.resolution_y <= u32::MAX
        &&& self.data@.len() == self.resolution_x * self.resolution_y
        &&& self.total == sum(self.data@)
    }

    /// What holds of every well-formed grid: its cells are those below the
    /// resolution, each count is stored at the cell's position, and no count
    /// exceeds the number of visits.
    pub proof fn lemma_layout(&self)
        requires
            self.wf(),
        ensures
            self.resolution().0 <= u32::MAX,
            self.resolution().1 <= u32::MAX,
            self.cells().len() == self.resolution().0 * self.resolution().1,
            self.visits() == sum(self.cells()),
            forall|cell: (u64, u64)| self@.dom().contains(cell) <==> self.covers(cell),
            forall|cell: (u64, u64)| #[trigger]
                self.covers(cell) ==> {
                    &&& 0 <= cell.0 * self.resolution().1 + cell.1 < self.cells().len()
                    &&& self@[cell] == self.cells()[cell.0 * self.resolution().1 + cell.1]
                    &&& self@[cell] <= self.visits()
                },
    {
        assert forall|cell: (u64, u64)| #[trigger] self.covers(cell) implies {
            &&& 0 <= cell.0 * self.resolution().1 + cell.1 < self.cells().len()
            &&& self@[cell] == self.cells()[cell.0 * self.resolution().1 + cell.1]
            &&& self@[cell] <= self.visits()
        } by {
            lemma_position(cell.0, cell.1, self.resolution_x, self.resolution_y);
            lemma_sum_bounds(self.data@, cell.0 * self.resolution_y + cell.1);
        }
    }

    /// An empty grid of the given resolution.
    pub fn new(resolution_x: u32, resolution_y: u32) -> (h: Histogram)
        requires
            resolution_x * resolution_y <= usize::MAX,
        ensures
            h.wf(),
            h.resolution() == (resolution_x as u64, resolution_y as u64),
            h.visits() == 0,
            forall|cell: (u64, u64)| h.covers(cell) ==> #[trigger] h@[cell] == 0,
    {
        assert(resolution_x * resolution_y <= usize::MAX);
        let cells: usize = (resolution_x as usize) * (resolution_y as usize);
        let data: Vec<u64> = vec![0u64; cells];
        let h = Histogram {
            resolution_x: resolution_x as u64,
            resolution_y: resolution_y as u64,
            total: 0,
            data,
        };
        proof {
            lemma_sum_of_zeros(h.data@);
            assert forall|cell: (u64, u64)| h.covers(cell) implies #[trigger] h@[cell] == 0 by {
                lemma_position(cell.0, cell.1, h.resolution_x, h.resolution_y);
            }
        }
        h
    }

    /// The number of columns.
    pub fn resolution_x(&self) -> (r: u64)
        ensures
            r == self.resolution().0,
    {
        self.resolution_x
    }

    /// The number of rows.
    pub fn resolution_y(&self) -> (r: u64)
        ensures
            r == self.resolution().1,
    {
        self.resolution_y
    }

    /// The number of visits counted so far.
    pub fn total(&self) -> (r: u64)
        ensures
            r == self.visits(),
    {
        self.total
    }

    /// The stored counts.
    pub fn data(&self) -> (r: &Vec<u64>)
        ensures
            r@ == self.cells(),
    {
        &self.data
    }

    /// Tells whether the cell `(x, y)` lies on the grid.
    pub fn contains(&self, x: u64, y: u64) -> (r: bool)
        ensures
            r == self.covers((x, y)),
    {
        x < self.resolution_x && y < self.resolution_y
    }

    /// The count of the cell `(x, y)`.
    pub fn count(&self, x: u64, y: u64) -> (r: u64)
        requires
            self.wf(),
            self.covers((x, y)),
        ensures
            r == self@[(x, y)],
    {
        proof {
            lemma_position(x, y, self.resolution_x, self.resolution_y);
            lemma_area_fits(self.resolution_x, self.resolution_y);
            assert(self.data@.len() == self.data.len());
        }
        self.data[(x * self.resolution_y + y) as usize]
    }

    /// Counts one more visit of the cell `(x, y)`.
    pub fn add_to_histogram(&mut self, x: u64, y: u64)
        requires
            old(self).wf(),
            old(self).covers((x, y)),
            old(self).visits() < u64::MAX,
        ensures
            final(self).wf(),
            final(self).resolution() == old(self).resolution(),
            final(self).visits() == old(self).visits() + 1,
            final(self)@ == old(self)@.insert((x, y), old(self)@[(x, y)] + 1),
            final(self)@ == tally(old(self)@, seq![(x, y)]),
    {
        proof {
            lemma_position(x, y, self.resolution_x, self.resolution_y);
            lemma_area_fits(self.resolution_x, self.resolution_y);
            lemma_sum_bounds(self.data@, x * self.resolution_y + y);
            assert(self.data@.len() == self.data.len());
        }
        let at: usize = (x * self.resolution_y + y) as usize;
        let seen: u64 = self.data[at];
        self.data.set(at, seen + 1);
        self.total = self.total + 1;
        proof {
            lemma_sum_update(old(self).data@, at as int, (seen + 1) as u64);
            assert(self@ =~= old(self)@.insert((x, y), old(self)@[(x, y)] + 1)) by {
                assert forall|cell: (u64, u64)| #[trigger] self@.dom().contains(cell) implies self@[cell]
                    == old(self)@.insert((x, y), old(self)@[(x, y)] + 1)[cell] by {
                    lemma_position(cell.0, cell.1, self.resolution_x, self.resolution_y);
                    if cell.0 * self.resolution_y + cell.1 == x * self.resolution_y + y {
                        lemma_position_is_injective(cell.0, cell.1, x, y, self.resolution_y);
                    }
                }
            }
            lemma_tally_one(old(self)@, (x, y));
        }
    }
}

/// The position of a cell in column-by-column storage lies in the table.
pub proof fn lemma_position(x: u64, y: u64, resolution_x: u64, resolution_y: u64)
    requires
        x < resolution_x,
        y < resolution_y,
    ensures
        0 <= x * resolution_y + y < resolution_x * resolution_y,
{
    assert(x * resolution_y + y < resolution_x * resolution_y) by (nonlinear_arith)
        requires
            x < resolution_x,
            y < resolution_y,
    ;
    assert(0 <= x * resolution_y) by (nonlinear_arith);
}

/// A grid whose resolutions fit in 32 bits has a number of cells that fits
/// in 64 bits.
pub proof fn lemma_area_fits(resolution_x: u64, resolution_y: u64)
    requires
        resolution_x <= u32::MAX,
        resolution_y <= u32::MAX,
    ensures
        resolution_x * resolution_y <= u64::MAX,
{
    assert(resolution_x * resolution_y <= 0xffff_ffff * 0xffff_ffff) by (nonlinear_arith)
        requires
            resolution_x <= 0xffff_ffff,
            resolution_y <= 0xffff_ffff,
    ;
}

/// Two cells of a grid are stored at the same position only if they are the
/// same cell.
pub proof fn lemma_position_is_injective(x1: u64, y1: u64, x2: u64, y2: u64, resolution_y: u64)
    requires
        y1 < resolution_y,
        y2 < resolution_y,
        x1 * resolution_y + y1 == x2 * resolution_y + y2,
    ensures
        x1 == x2,
        y1 == y2,
{
    assert(x1 == x2) by (nonlinear_arith)
        requires
            y1 < resolution_y,
            y2 < resolution_y,
            x1 * resolution_y + y1 == x2 * resolution_y + y2,
    ;
}

/// No count of a table exceeds the sum of all counts.
pub proof fn lemma_sum_bounds(counts: Seq<u64>, i: int)
    requires
        0 <= i < counts.len(),
    ensures
        counts[i] <= sum(counts),
    decreases counts.len(),
{
    if i < counts.len() - 1 {
        lemma_sum_bounds(counts.drop_last(), i);
    }
}

/// Replacing one count changes the sum by the difference.
pub proof fn lemma_sum_update(counts: Seq<u64>, i: int, value: u64)
    requires
        0 <= i < counts.len(),
    ensures
        sum(counts.update(i, value)) == sum(counts) - counts[i] + value,
    decreases counts.len(),
{
    if i < counts.len() - 1 {
        lemma_sum_update(counts.drop_last(), i, value);
        assert(counts.update(i, value).drop_last() =~= counts.drop_last().update(i, value));
    } else {
        assert(counts.update(i, value).drop_last() =~= counts.drop_last());
    }
}

/// A table of zeros sums to zero.
pub proof fn lemma_sum_of_zeros(counts: Seq<u64>)
    requires
        forall|i: int| 0 <= i < counts.len() ==> counts[i] == 0,
    ensures
        sum(counts) == 0,
    decreases counts.len(),
{
    if counts.len() > 0 {
        lemma_sum_of_zeros(counts.drop_last());
    }
}

/// Visiting a single cell of the grid raises its count by one and leaves
/// the others alone.
pub proof fn lemma_tally_one(grid: Map<(u64, u64), nat>, cell: (u64, u64))
    requires
        grid.dom().contains(cell),
    ensures
        tally(grid, seq![cell]) == grid.insert(cell, grid[cell] + 1),
{
    broadcast use vstd::multiset::group_multiset_axioms;

    let visits = seq![cell];
    assert(visits =~= Seq::<(u64, u64)>::empty().push(cell));
    Seq::<(u64, u64)>::empty().to_multiset_ensures();
    assert(visits.to_multiset() =~= Multiset::<(u64, u64)>::empty().insert(cell));
    assert(tally(grid, visits) =~= grid.insert(cell, grid[cell] + 1));
}

/// Visiting no cell leaves the grid as it is.
pub proof fn lemma_tally_none(grid: Map<(u64, u64), nat>)
    ensures
        tally(grid, Seq::empty()) == grid,
{
    broadcast use vstd::multiset::group_multiset_axioms;

    Seq::<(u64, u64)>::empty().to_multiset_ensures();
    assert(Seq::<(u64, u64)>::empty().to_multiset() =~= Multiset::<(u64, u64)>::empty());
    assert(tally(grid, Seq::empty()) =~= grid);
}

/// Counts only grow: replaying visits keeps the cells of the grid and lowers
/// no count.
pub proof fn lemma_tally_grows(grid: Map<(u64, u64), nat>, visits: Seq<(u64, u64)>)
    ensures
        tally(grid, visits).dom() == grid.dom(),
        forall|cell: (u64, u64)|
            grid.dom().contains(cell) ==> #[trigger] tally(grid, visits)[cell] >= grid[cell],
{
    assert(tally(grid, visits).dom() =~= grid.dom());
}

/// Replaying one orbit and then another gives what replaying the two as one
/// gives.
pub proof fn lemma_tally_concat(
    grid: Map<(u64, u64), nat>,
    first: Seq<(u64, u64)>,
    second: Seq<(u64, u64)>,
)
    ensures
        tally(tally(grid, first), second) == tally(grid, first + second),
{
    broadcast use vstd::multiset::group_multiset_axioms;

    lemma_multiset_commutative(first, second);
    assert(tally(tally(grid, first), second) =~= tally(grid, first + second));
}

/// Accumulation is commutative: two orbits may be replayed in either order.
pub proof fn lemma_tally_commutes(
    grid: Map<(u64, u64), nat>,
    first: Seq<(u64, u64)>,
    second: Seq<(u64, u64)>,
)
    ensures
        tally(tally(grid, first), second) == tally(tally(grid, second), first),
{
    broadcast use vstd::multiset::group_multiset_axioms;

    assert(tally(tally(grid, first), second) =~= tally(tally(grid, second), first));
}

/// Only how often each cell is visited matters, not in which order: two
/// sequences of visits that hold every cell equally often give the same
/// grid.
pub proof fn lemma_tally_order_irrelevant(
    grid: Map<(u64, u64), nat>,
    first: Seq<(u64, u64)>,
    second: Seq<(u64, u64)>,
)
    requires
        first.to_multiset() == second.to_multiset(),
    ensures
        tally(grid, first) == tally(grid, second),
{
}

/// Replaying a sequence of orbits raises every cell's count by the number
/// of times the cell occurs in all of them together.
pub proof fn lemma_tally_all_counts(grid: Map<(u64, u64), nat>, orbits: Seq<Seq<(u64, u64)>>)
    ensures
        tally_all(grid, orbits).dom() == grid.dom(),
        forall|cell: (u64, u64)|
            grid.dom().contains(cell) ==> #[trigger] tally_all(grid, orbits)[cell] == grid[cell]
                + all_visits(orbits).count(cell),
    decreases orbits.len(),
{
    broadcast use vstd::multiset::group_multiset_axioms;

    if orbits.len() > 0 {
        lemma_tally_all_counts(grid, orbits.drop_last());
    }
    assert(tally_all(grid, orbits).dom() =~= grid.dom());
}

/// Taking one orbit out of a sequence takes exactly its cells out of the
/// visits.
pub proof fn lemma_all_visits_remove(orbits: Seq<Seq<(u64, u64)>>, k: int)
    requires
        0 <= k < orbits.len(),
    ensures
        all_visits(orbits) == all_visits(orbits.remove(k)).add(orbits[k].to_multiset()),
    decreases orbits.len(),
{
    broadcast use vstd::multiset::group_multiset_axioms;

    if k == orbits.len() - 1 {
        assert(orbits.remove(k) =~= orbits.drop_last());
    } else {
        lemma_all_visits_remove(orbits.drop_last(), k);
        assert(orbits.remove(k).drop_last() =~= orbits.drop_last().remove(k));
        assert(orbits.remove(k).last() == orbits.last());
        assert(all_visits(orbits) =~= all_visits(orbits.remove(k)).add(orbits[k].to_multiset()));
    }
}

/// Two sequences that hold the same orbits, each equally often, visit every
/// cell equally often.
pub proof fn lemma_all_visits_order_irrelevant(
    first: Seq<Seq<(u64, u64)>>,
    second: Seq<Seq<(u64, u64)>>,
)
    requires
        first.to_multiset() == second.to_multiset(),
    ensures
        all_visits(first) == all_visits(second),
    decreases first.len(),
{
    broadcast use vstd::multiset::group_multiset_axioms;

    first.to_multiset_ensures();
    second.to_multiset_ensures();
    if first.len() == 0 {
        assert(second.len() == 0);
    } else {
        let last = first.last();
        assert(first[first.len() - 1] == last);
        assert(first.contains(last));
        assert(first.to_multiset().count(last) > 0);
        assert(second.to_multiset().count(last) > 0);
        assert(second.contains(last));
        let k = choose|k: int| 0 <= k < second.len() && second[k] == last;
        assert(first.drop_last() =~= first.remove(first.len() - 1));
        lemma_all_visits_order_irrelevant(first.drop_last(), second.remove(k));
        lemma_all_visits_remove(second, k);
    }
}

/// Accumulation does not depend on the order of the orbits: replaying the
/// same orbits in any order gives the same count in every cell.
pub proof fn lemma_replay_order_irrelevant(
    grid: Map<(u64, u64), nat>,
    first: Seq<Seq<(u64, u64)>>,
    second: Seq<Seq<(u64, u64)>>,
)
    requires
        first.to_multiset() == second.to_multiset(),
    ensures
        tally_all(grid, first) == tally_all(grid, second),
{
    lemma_all_visits_order_irrelevant(first, second);
    lemma_tally_all_counts(grid, first);
    lemma_tally_all_counts(grid, second);
    assert(tally_all(grid, first) =~= tally_all(grid, second));
}

} // verus!
