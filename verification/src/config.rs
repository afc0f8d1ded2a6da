//! The configuration of a run, and what makes one unusable.
//!
//! Everything that workers and the aggregator need to know is passed to
//! them in one value. A configuration is checked once, before anything is
//! started.

use vstd::prelude::*;
use crate::aggregate::Aggregator;
use crate::histogram::Histogram;
use crate::number::{bits_less, smaller_number};
use crate::sampling::{Batch, QualifyingPoint};

verus! {

/// A rectangle of the complex plane: the bounds of the real and of the
/// imaginary part, each from its lower to its upper bound, as bit patterns
/// of doubles.
#[derive(Clone, Copy, Debug)]
pub struct SamplingRegion {
    pub real_range: (u64, u64),
    pub imaginary_range: (u64, u64),
}

impl SamplingRegion {
    /// Whether both ranges run from a number to a larger number.
    pub open spec fn in_order(self) -> bool {
        &&& smaller_number(self.real_range.0, self.real_range.1)
        &&& smaller_number(self.imaginary_range.0, self.imaginary_range.1)
    }

    /// Tells whether both ranges run from a number to a larger number.
    pub fn is_in_order(&self) -> (r: bool)
        ensures
            r == self.in_order(),
    {
        bits_less(self.real_range.0, self.real_range.1) && bits_less(
            self.imaginary_range.0,
            self.imaginary_range.1,
        )
    }
}

/// Why a configuration cannot be run.
#[derive(Clone, Copy, Debug, PartialEq, Eq, Structural)]
pub enum ConfigError {
    /// The image has no column or no row.
    ZeroResolution,
    /// A range of the region that points are drawn from is empty, inverted
    /// or bounded by a NaN.
    InvertedSamplingRange,
    /// A range of the region that the grid covers is empty, inverted or
    /// bounded by a NaN.
    InvertedGridRange,
}

/// The parameters of a run.
#[derive(Clone, Copy, Debug)]
pub struct Config {
    /// The region that points are drawn from.
    pub sampling: SamplingRegion,
    /// The region that the density grid covers.
    pub grid: SamplingRegion,
    /// The number of iterations after which an evaluation gives up.
    pub limit: u64,
    /// The squared bailout radius, as the bit pattern of a double.
    pub bailout: u64,
    /// The escape time that a point must exceed to qualify.
    pub min_iterations: u64,
    /// The amount of work at which a worker hands its batch on.
    pub batch_size: u64,
    /// The total of replayed iterations at which the run is finished.
    pub target: u64,
    /// The distance, in replayed iterations, between two snapshots.
    pub save_interval: u64,
    /// The number of columns and of rows of the grid.
    pub resolution: (u32, u32),
    /// The number of workers.
    pub workers: u64,
    /// The seed from which the workers' seeds are derived.
    pub base_seed: u64,
}

impl Config {
    /// The first fault of the configuration, if it has one: the resolution
    /// is looked at first, then the sampling region, then the grid's region.
    pub open spec fn fault(self) -> Option<ConfigError> {
        if self.resolution.0 == 0 || self.resolution.1 == 0 {
            Some(ConfigError::ZeroResolution)
        } else if !self.sampling.in_order() {
            Some(ConfigError::InvertedSamplingRange)
        } else if !self.grid.in_order() {
            Some(ConfigError::InvertedGridRange)
        } else {
            None
        }
    }

    /// Checks the configuration. It is accepted exactly if it has no fault,
    /// and is otherwise refused with its first fault.
    pub fn validate(&self) -> (r: Result<(), ConfigError>)
        ensures
            r == match self.fault() {
                Some(error) => Err::<(), ConfigError>(error),
                None => Ok::<(), ConfigError>(()),
            },
    {
        if self.resolution.0 == 0 || self.resolution.1 == 0 {
            Err(ConfigError::ZeroResolution)
        } else if !self.sampling.is_in_order() {
            Err(ConfigError::InvertedSamplingRange)
        } else if !self.grid.is_in_order() {
            Err(ConfigError::InvertedGridRange)
        } else {
            Ok(())
        }
    }

    /// The seed of the worker with the given index: the base seed plus the
    /// index, or nothing if that sum is no `u64`.
    pub fn worker_seed(&self, index: u64) -> (seed: Option<u64>)
        ensures
            seed == if self.base_seed + index <= u64::MAX {
                Some((self.base_seed + index) as u64)
            } else {
                None
            },
    {
        self.base_seed.checked_add(index)
    }

    /// An empty batch with the thresholds of this run.
    pub fn new_batch(&self) -> (b: Batch)
        ensures
            b.wf(),
            b.threshold() == self.min_iterations,
            b.goal() == self.batch_size,
            b.gathered() == Seq::<QualifyingPoint>::empty(),
            b.tried() == 0,
    {
        Batch::new(self.min_iterations, self.batch_size)
    }

    /// The aggregator's state before the first batch of this run.
    pub fn new_aggregator(&self) -> (a: Aggregator)
        ensures
            a == (Aggregator {
                total_probed: 0,
                total_points: 0,
                next_save: Some(self.save_interval),
                save_interval: self.save_interval,
                target: self.target,
                record_above: (self.limit / 10) as u64,
            }),
    {
        Aggregator::new(self.limit, self.target, self.save_interval)
    }

    /// An empty grid of the resolution of this run.
    pub fn new_histogram(&self) -> (h: Histogram)
        requires
            self.resolution.0 * self.resolution.1 <= usize::MAX,
        ensures
            h.wf(),
            h.resolution() == (self.resolution.0 as u64, self.resolution.1 as u64),
            h.visits() == 0,
            forall|cell: (u64, u64)| h.covers(cell) ==> #[trigger] h@[cell] == 0,
    {
        Histogram::new(self.resolution.0, self.resolution.1)
    }
}

} // verus!
