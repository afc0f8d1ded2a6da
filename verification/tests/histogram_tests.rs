use buddhabrot::histogram::Histogram;
use buddhabrot::number::ImaginaryNumber;
use buddhabrot::replay::collect;

fn number(re: f64, im: f64) -> ImaginaryNumber {
    ImaginaryNumber::new(re.to_bits(), im.to_bits())
}

fn parts(z: ImaginaryNumber) -> (f64, f64) {
    (f64::from_bits(z.real), f64::from_bits(z.imaginary))
}

fn advance(z: ImaginaryNumber, c: ImaginaryNumber) -> ImaginaryNumber {
    let (zr, zi) = parts(z);
    let (cr, ci) = parts(c);
    number(zr * zr - zi * zi + cr, zr * zi + zr * zi + ci)
}

/// The cell of a value on a grid of `resolution` columns and rows over the
/// square from `min` to `max`.
fn cell(z: ImaginaryNumber, resolution: u32, min: f64, max: f64) -> (u64, u64) {
    let (re, im) = parts(z);
    let offset = 0.0 - min;
    let step = (max - min) / resolution as f64;
    let x = ((re + offset) / step) as u64;
    let y = ((im + offset) / step) as u64;
    assert!(x < resolution as u64, "{} is larger then {}", x, resolution);
    assert!(y < resolution as u64, "{} is larger then {}", y, resolution);
    (x, y)
}

#[test]
fn new_grid_is_empty() {
    let h = Histogram::new(3, 2);
    assert_eq!(h.resolution_x(), 3);
    assert_eq!(h.resolution_y(), 2);
    assert_eq!(h.total(), 0);
    assert_eq!(h.data(), &vec![0u64; 6]);
    for x in 0..3 {
        for y in 0..2 {
            assert_eq!(h.count(x, y), 0);
        }
    }
}

#[test]
fn grid_without_cells() {
    let h = Histogram::new(0, 5);
    assert_eq!(h.data().len(), 0);
    assert!(!h.contains(0, 0));
    let g = Histogram::new(5, 0);
    assert_eq!(g.data().len(), 0);
    assert!(!g.contains(0, 0));
}

#[test]
fn contains_exactly_the_cells_below_the_resolution() {
    let h = Histogram::new(3, 2);
    assert!(h.contains(0, 0));
    assert!(h.contains(2, 1));
    assert!(!h.contains(3, 0));
    assert!(!h.contains(0, 2));
    assert!(!h.contains(u64::MAX, u64::MAX));
}

#[test]
fn add_counts_one_visit_of_one_cell() {
    let mut h = Histogram::new(3, 2);
    h.add_to_histogram(2, 1);
    h.add_to_histogram(2, 1);
    h.add_to_histogram(0, 1);
    assert_eq!(h.count(2, 1), 2);
    assert_eq!(h.count(0, 1), 1);
    assert_eq!(h.count(1, 0), 0);
    assert_eq!(h.total(), 3);
}

#[test]
fn counts_are_stored_column_by_column() {
    let mut h = Histogram::new(3, 2);
    h.add_to_histogram(0, 1);
    h.add_to_histogram(1, 0);
    h.add_to_histogram(1, 0);
    h.add_to_histogram(2, 1);
    h.add_to_histogram(2, 1);
    h.add_to_histogram(2, 1);
    assert_eq!(h.data(), &vec![0, 1, 2, 0, 0, 3]);
}

#[test]
fn centre_and_corner_of_a_square_region() {
    for resolution in [1u32, 2, 7, 64, 1920] {
        let centre = cell(number(0.0, 0.0), resolution, -2.0, 2.0);
        assert_eq!(centre, (resolution as u64 / 2, resolution as u64 / 2));
        let corner = cell(number(-2.0, -2.0), resolution, -2.0, 2.0);
        assert_eq!(corner, (0, 0));
        let h = Histogram::new(resolution, resolution);
        assert!(h.contains(centre.0, centre.1));
        assert!(h.contains(corner.0, corner.1));
    }
}

#[test]
fn points_of_the_region_fall_on_the_grid() {
    let resolution = 16u32;
    let mut h = Histogram::new(resolution, resolution);
    let mut visits = 0u64;
    for i in 0..64 {
        for j in 0..64 {
            let re = -2.0 + 4.0 * (i as f64) / 64.0;
            let im = -2.0 + 4.0 * (j as f64) / 64.0;
            let (x, y) = cell(number(re, im), resolution, -2.0, 2.0);
            assert!(h.contains(x, y));
            h.add_to_histogram(x, y);
            visits += 1;
        }
    }
    assert_eq!(h.total(), visits);
    // 64 samples per axis on 16 cells: 4 by 4 samples in every cell.
    assert_eq!(h.data(), &vec![16u64; 256]);
}

#[test]
fn replay_counts_every_value_of_the_orbit() {
    // The orbit of 0.5 is 0.5, 0.75, 1.0625, 1.62890625, ...
    let mut h = Histogram::new(4, 4);
    collect(number(0.5, 0.0), 4, &mut h, advance, |z| cell(z, 4, -2.0, 2.0));
    assert_eq!(h.total(), 4);
    assert_eq!(h.count(2, 2), 2);
    assert_eq!(h.count(3, 2), 2);
    assert_eq!(h.data().iter().sum::<u64>(), 4);
}

#[test]
fn replay_of_no_iteration_changes_nothing() {
    let mut h = Histogram::new(4, 4);
    collect(number(0.5, 0.0), 0, &mut h, advance, |z| cell(z, 4, -2.0, 2.0));
    assert_eq!(h.total(), 0);
    assert_eq!(h.data(), &vec![0u64; 16]);
}

#[test]
fn replay_starts_from_zero_each_time() {
    let mut once = Histogram::new(8, 8);
    collect(number(-0.3, 0.7), 3, &mut once, advance, |z| cell(z, 8, -2.0, 2.0));
    let mut twice = Histogram::new(8, 8);
    collect(number(-0.3, 0.7), 3, &mut twice, advance, |z| cell(z, 8, -2.0, 2.0));
    collect(number(-0.3, 0.7), 3, &mut twice, advance, |z| cell(z, 8, -2.0, 2.0));
    let doubled: Vec<u64> = once.data().iter().map(|n| 2 * n).collect();
    assert_eq!(twice.data(), &doubled);
}

#[test]
fn order_of_replays_does_not_matter() {
    let orbits = [
        (number(0.5, 0.0), 4u64),
        (number(0.3, 0.6), 6),
        (number(-0.7, 0.4), 9),
        (number(0.5, 0.0), 2),
    ];
    let orders: [[usize; 4]; 4] = [[0, 1, 2, 3], [3, 2, 1, 0], [1, 3, 0, 2], [2, 0, 3, 1]];
    let mut results: Vec<Vec<u64>> = Vec::new();
    for order in orders {
        let mut h = Histogram::new(32, 32);
        for k in order {
            collect(orbits[k].0, orbits[k].1, &mut h, advance, |z| cell(z, 32, -2.0, 2.0));
        }
        assert_eq!(h.total(), 21);
        results.push(h.data().clone());
    }
    for r in &results {
        assert_eq!(r, &results[0]);
    }
}
