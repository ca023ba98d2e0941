use fractal_rs::histogram::Histogram;

fn counts(h: &Histogram) -> Vec<usize> {
    (0..h.buckets()).map(|b| h.count(b)).collect()
}

#[test]
fn new_histogram_is_empty() {
    let h = Histogram::new(4);
    assert_eq!(h.escaped(), 0);
    assert_eq!(h.buckets(), 4);
    assert_eq!(counts(&h), vec![0, 0, 0, 0]);
}

#[test]
fn record_counts_buckets_below_cap_only() {
    let mut h = Histogram::new(3);
    for b in [0u16, 2, 2, 3, 7, 1, 2] {
        h.record(b);
    }
    // buckets 3 and 7 are at or above the cap: never escaped
    assert_eq!(h.escaped(), 5);
    assert_eq!(counts(&h), vec![1, 1, 3]);
}

#[test]
fn counts_add_up_to_escapes() {
    let mut h = Histogram::new(5);
    for b in [4u16, 0, 4, 1, 3, 3, 3, 5, 9] {
        h.record(b);
    }
    assert_eq!(counts(&h), vec![1, 1, 0, 3, 2]);
    assert_eq!(counts(&h).iter().sum::<usize>(), h.escaped());
    assert_eq!(h.escaped(), 7);
}

#[test]
fn zero_cap_histogram_counts_nothing() {
    let mut h = Histogram::new(0);
    h.record(0);
    assert_eq!(h.escaped(), 0);
    assert_eq!(h.buckets(), 0);
}
