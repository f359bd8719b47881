use procmon::series::BoundedSeries;

#[test]
fn empty_series_has_no_samples() {
    let s = BoundedSeries::new(4);
    assert_eq!(s.len(), 0);
    assert!(s.samples().is_empty());
}

#[test]
fn push_appends_in_order_below_capacity() {
    let mut s = BoundedSeries::new(3);
    s.push(1);
    s.push(2);
    assert_eq!(s.samples().as_slice(), &[1, 2]);
}

#[test]
fn push_at_capacity_evicts_oldest_first() {
    let mut s = BoundedSeries::new(3);
    s.push(1);
    s.push(2);
    s.push(3);
    s.push(4);
    s.push(5);
    assert_eq!(s.samples().as_slice(), &[3, 4, 5]);
    assert_eq!(s.len(), 3);
}

#[test]
fn length_never_exceeds_capacity() {
    let mut s = BoundedSeries::new(2);
    for i in 0..100u64 {
        s.push(i);
        assert!(s.len() <= 2);
    }
    assert_eq!(s.samples().as_slice(), &[98, 99]);
}

#[test]
fn zero_capacity_series_stays_empty() {
    let mut s = BoundedSeries::new(0);
    s.push(7);
    assert_eq!(s.len(), 0);
}
