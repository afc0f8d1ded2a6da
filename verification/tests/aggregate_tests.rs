use buddhabrot::aggregate::Aggregator;
use buddhabrot::histogram::Histogram;
use buddhabrot::number::ImaginaryNumber;
use buddhabrot::sampling::QualifyingPoint;

fn number(re: f64, im: f64) -> ImaginaryNumber {
    ImaginaryNumber::new(re.to_bits(), im.to_bits())
}

fn parts(z: ImaginaryNumber) -> (f64, f64) {
    (f64::from_bits(z.real), f64::from_bits(z.imaginary))
}

fn advance(z: ImaginaryNumber, c: ImaginaryNumber) -> ImaginaryNumber {
    let (zr, zi) = parts(z);
    let (cr, ci) = parts(c);
    number(zr * zr - zi * zi + cr, zr * zi + zr * zi + ci)
}

fn cell(z: ImaginaryNumber) -> (u64, u64) {
    let (re, im) = parts(z);
    let x = ((re + 2.0) / 0.5) as u64;
    let y = ((im + 2.0) / 0.5) as u64;
    assert!(x < 8 && y < 8);
    (x, y)
}

fn found(re: f64, im: f64, iterations: u64) -> QualifyingPoint {
    QualifyingPoint { point: number(re, im), iterations }
}

fn escape_times(points: &Vec<QualifyingPoint>) -> Vec<u64> {
    points.iter().map(|p| p.iterations).collect()
}

#[test]
fn new_aggregator_waits_for_its_first_interval() {
    let a = Aggregator::new(12000, 1000, 100);
    assert_eq!(a.total_probed, 0);
    assert_eq!(a.total_points, 0);
    assert_eq!(a.next_save, Some(100));
    assert_eq!(a.save_interval, 100);
    assert_eq!(a.target, 1000);
    assert_eq!(a.record_above, 1200);
}

#[test]
fn record_threshold_is_a_tenth_of_the_limit_rounded_down() {
    assert_eq!(Aggregator::new(19, 1, 1).record_above, 1);
    assert_eq!(Aggregator::new(9, 1, 1).record_above, 0);
    assert_eq!(Aggregator::new(20000000, 1, 1).record_above, 2000000);
}

#[test]
fn absorb_replays_every_point_and_adds_up() {
    let mut a = Aggregator::new(30, 100, 10);
    let mut h = Histogram::new(8, 8);
    let batch = vec![found(0.5, 0.0, 4), found(0.3, 0.6, 3), found(1.0, 0.0, 1)];
    let s = a.absorb(&batch, 17, &mut h, advance, cell);
    assert_eq!(a.total_probed, 17);
    assert_eq!(a.total_points, 8);
    assert_eq!(h.total(), 8);
    assert!(!s.save);
    assert!(!s.finished);
    assert_eq!(a.next_save, Some(10));
    // 0.5, 0.75, 1.0625, 1.62890625 fall into columns 5, 5, 6, 7 of row 4,
    // and 1.0 into column 6.
    assert_eq!(h.count(5, 4), 2);
    assert_eq!(h.count(6, 4), 2);
    assert_eq!(h.count(7, 4), 1);
}

#[test]
fn absorb_does_what_single_replays_do() {
    let batch = vec![found(0.5, 0.0, 4), found(0.3, 0.6, 3), found(-0.7, 0.4, 6)];
    let mut a = Aggregator::new(30, 100, 10);
    let mut h = Histogram::new(8, 8);
    a.absorb(&batch, 3, &mut h, advance, cell);
    let mut g = Histogram::new(8, 8);
    for p in batch.iter().rev() {
        buddhabrot::replay::collect(p.point, p.iterations, &mut g, advance, cell);
    }
    assert_eq!(h.data(), g.data());
}

#[test]
fn notable_points_exceed_a_tenth_of_the_limit() {
    let mut a = Aggregator::new(30, 100, 50);
    let mut h = Histogram::new(8, 8);
    let batch = vec![
        found(0.0, 0.0, 3),
        found(0.0, 0.0, 4),
        found(0.0, 0.0, 2),
        found(0.0, 0.0, 7),
    ];
    let s = a.absorb(&batch, 4, &mut h, advance, cell);
    assert_eq!(escape_times(&s.notable), vec![4, 7]);
}

#[test]
fn snapshot_is_due_when_the_total_reaches_the_next_save() {
    let mut a = Aggregator::new(30, 100, 10);
    let mut h = Histogram::new(8, 8);
    let s = a.absorb(&vec![found(0.0, 0.0, 9)], 1, &mut h, advance, cell);
    assert!(!s.save);
    assert_eq!(a.next_save, Some(10));
    let s = a.absorb(&vec![found(0.0, 0.0, 1)], 1, &mut h, advance, cell);
    assert!(s.save);
    assert_eq!(a.next_save, Some(20));
    let s = a.absorb(&vec![], 1, &mut h, advance, cell);
    assert!(!s.save);
    assert_eq!(a.next_save, Some(20));
}

#[test]
fn a_large_batch_moves_the_next_save_by_one_interval_only() {
    let mut a = Aggregator::new(30, 1000, 10);
    let mut h = Histogram::new(8, 8);
    let s = a.absorb(&vec![found(0.0, 0.0, 35)], 1, &mut h, advance, cell);
    assert!(s.save);
    assert_eq!(a.next_save, Some(20));
    let s = a.absorb(&vec![], 0, &mut h, advance, cell);
    assert!(s.save);
    assert_eq!(a.next_save, Some(30));
}

#[test]
fn run_is_finished_when_the_total_reaches_the_target() {
    let mut a = Aggregator::new(30, 12, 100);
    let mut h = Histogram::new(8, 8);
    let s = a.absorb(&vec![found(0.0, 0.0, 11)], 5, &mut h, advance, cell);
    assert!(!s.finished);
    let s = a.absorb(&vec![found(0.0, 0.0, 1)], 5, &mut h, advance, cell);
    assert!(s.finished);
    assert_eq!(a.total_points, 12);
    assert_eq!(a.total_probed, 10);
}

#[test]
fn no_snapshot_is_scheduled_beyond_the_last_total() {
    let mut a = Aggregator::new(30, u64::MAX, u64::MAX);
    a.next_save = Some(1);
    let mut h = Histogram::new(8, 8);
    let s = a.absorb(&vec![found(0.0, 0.0, 2)], 1, &mut h, advance, cell);
    assert!(s.save);
    assert_eq!(a.next_save, None);
    let s = a.absorb(&vec![found(0.0, 0.0, 2)], 1, &mut h, advance, cell);
    assert!(!s.save);
    assert_eq!(a.next_save, None);
}

#[test]
fn empty_batch_counts_its_probes() {
    let mut a = Aggregator::new(30, 0, 0);
    let mut h = Histogram::new(8, 8);
    let s = a.absorb(&vec![], 41, &mut h, advance, cell);
    assert_eq!(a.total_probed, 41);
    assert_eq!(a.total_points, 0);
    assert!(s.notable.is_empty());
    assert!(s.save);
    assert!(s.finished);
    assert_eq!(h.total(), 0);
}
