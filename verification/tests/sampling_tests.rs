use buddhabrot::number::ImaginaryNumber;
use buddhabrot::sampling::{Batch, QualifyingPoint};

fn number(re: f64, im: f64) -> ImaginaryNumber {
    ImaginaryNumber::new(re.to_bits(), im.to_bits())
}

fn parts(z: ImaginaryNumber) -> (f64, f64) {
    (f64::from_bits(z.real), f64::from_bits(z.imaginary))
}

fn inside(c: ImaginaryNumber) -> bool {
    let (re, im) = parts(c);
    let squared = im * im;
    if (re + 1.0) * (re + 1.0) + squared <= 1.0 / 16.0 {
        return true;
    }
    let p = ((re - 0.25) * (re - 0.25) + squared).sqrt();
    re <= p - 2.0 * p * p + 0.25
}

fn advance(z: ImaginaryNumber, c: ImaginaryNumber) -> ImaginaryNumber {
    let (zr, zi) = parts(z);
    let (cr, ci) = parts(c);
    number(zr * zr - zi * zi + cr, zr * zi + zr * zi + ci)
}

fn beyond(z: ImaginaryNumber, bailout: u64) -> bool {
    let (re, im) = parts(z);
    re * re + im * im > f64::from_bits(bailout)
}

fn pairs(points: &Vec<QualifyingPoint>) -> Vec<(u64, u64, u64)> {
    points.iter().map(|p| (p.point.real, p.point.imaginary, p.iterations)).collect()
}

#[test]
fn new_batch_is_empty() {
    let b = Batch::new(5, 100);
    assert_eq!(b.points().len(), 0);
    assert_eq!(b.probed(), 0);
    assert_eq!(b.iterations_sum(), 0);
    assert!(!b.is_complete());
}

#[test]
fn batch_with_no_goal_is_complete_at_once() {
    let b = Batch::new(5, 0);
    assert!(b.is_complete());
}

#[test]
fn record_keeps_points_above_the_threshold_only() {
    let mut b = Batch::new(5, 100);
    b.record(number(1.0, 0.0), None);
    b.record(number(2.0, 0.0), Some(5));
    b.record(number(3.0, 0.0), Some(6));
    b.record(number(4.0, 0.0), Some(0));
    b.record(number(5.0, 0.0), Some(40));
    assert_eq!(b.probed(), 5);
    assert_eq!(b.iterations_sum(), 46);
    assert_eq!(
        pairs(b.points()),
        vec![(3.0f64.to_bits(), 0, 6), (5.0f64.to_bits(), 0, 40)]
    );
}

#[test]
fn batch_is_complete_when_its_work_reaches_the_goal() {
    let mut b = Batch::new(0, 10);
    b.record(number(1.0, 0.0), Some(4));
    assert!(!b.is_complete());
    b.record(number(1.0, 0.0), Some(5));
    assert!(!b.is_complete());
    b.record(number(1.0, 0.0), Some(1));
    assert!(b.is_complete());
    b.record(number(1.0, 0.0), Some(7));
    assert!(b.is_complete());
    assert_eq!(b.iterations_sum(), 17);
}

#[test]
fn probe_evaluates_and_records() {
    let bailout = 4.0f64.to_bits();
    let mut b = Batch::new(1, 100);
    // Escapes at iteration 4: qualifies.
    b.probe(number(0.5, 0.0), 1000, bailout, inside, advance, beyond);
    // Escapes at iteration 0: below the threshold.
    b.probe(number(3.0, 0.0), 1000, bailout, inside, advance, beyond);
    // Inside the set.
    b.probe(number(0.0, 0.0), 1000, bailout, inside, advance, beyond);
    // Escapes at iteration 2: qualifies.
    b.probe(number(1.0, 0.0), 1000, bailout, inside, advance, beyond);
    assert_eq!(b.probed(), 4);
    assert_eq!(b.iterations_sum(), 6);
    assert_eq!(
        pairs(b.points()),
        vec![(0.5f64.to_bits(), 0, 4), (1.0f64.to_bits(), 0, 2)]
    );
}

#[test]
fn into_parts_hands_on_points_and_probes() {
    let mut b = Batch::new(0, 10);
    b.record(number(1.0, 2.0), Some(4));
    b.record(number(1.0, 2.0), None);
    let (points, probed) = b.into_parts();
    assert_eq!(probed, 2);
    assert_eq!(pairs(&points), vec![(1.0f64.to_bits(), 2.0f64.to_bits(), 4)]);
}

#[test]
fn every_point_of_a_batch_exceeds_the_threshold() {
    let mut b = Batch::new(7, 1000);
    for n in 0..20u64 {
        b.record(number(n as f64, 0.0), Some(n));
    }
    assert_eq!(b.probed(), 20);
    assert_eq!(b.points().len(), 12);
    for p in b.points() {
        assert!(p.iterations > 7);
    }
    assert_eq!(b.iterations_sum(), (8..20).sum::<u64>());
}
