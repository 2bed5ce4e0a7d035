use wavetable::table::{WaveTable, FULL_SCALE};

fn sine_samples(size: usize) -> Vec<i32> {
    let mut samples = Vec::with_capacity(size);
    for n in 0..size {
        let value = (2.0 * std::f64::consts::PI * n as f64 / size as f64).sin();
        samples.push((value * FULL_SCALE as f64).round() as i32);
    }
    samples
}

#[test]
fn full_scale_is_two_to_the_24th() {
    assert_eq!(FULL_SCALE, 1 << 24);
}

#[test]
fn new_refuses_fewer_than_two_entries() {
    assert!(WaveTable::new(vec![]).is_none());
    assert!(WaveTable::new(vec![0]).is_none());
    assert!(WaveTable::new(vec![FULL_SCALE]).is_none());
    assert!(WaveTable::new(vec![0, 0]).is_some());
}

#[test]
fn new_refuses_entries_beyond_full_scale() {
    assert!(WaveTable::new(vec![0, FULL_SCALE + 1]).is_none());
    assert!(WaveTable::new(vec![-FULL_SCALE - 1, 0]).is_none());
    assert!(WaveTable::new(vec![0, 0, 0, i32::MAX]).is_none());
    assert!(WaveTable::new(vec![0, 0, i32::MIN, 0]).is_none());
    assert!(WaveTable::new(vec![FULL_SCALE, -FULL_SCALE]).is_some());
}

#[test]
fn table_keeps_its_entries() {
    let table = WaveTable::new(vec![3, -1, 4, -1, 5]).unwrap();
    assert_eq!(table.len(), 5);
    assert_eq!(table.sample(0), 3);
    assert_eq!(table.sample(1), -1);
    assert_eq!(table.sample(2), 4);
    assert_eq!(table.sample(3), -1);
    assert_eq!(table.sample(4), 5);
}

#[test]
fn table_is_cyclic() {
    let table = WaveTable::new(vec![3, -1, 4, -1, 5]).unwrap();
    assert_eq!(table.sample(5), 3);
    assert_eq!(table.sample(6), -1);
    assert_eq!(table.sample(14), 5);
    assert_eq!(table.sample(usize::MAX), table.sample(usize::MAX % 5));
}

#[test]
fn clone_keeps_the_entries() {
    let table = WaveTable::new(vec![7, 8, 9]).unwrap();
    let copy = table.clone();
    assert_eq!(copy.len(), 3);
    for i in 0..3 {
        assert_eq!(copy.sample(i), table.sample(i));
    }
}

#[test]
fn sine_table_starts_at_zero_and_peaks_at_a_quarter() {
    for size in [4usize, 8, 64, 256] {
        let table = WaveTable::new(sine_samples(size)).unwrap();
        assert_eq!(table.len(), size);
        assert_eq!(table.sample(0), 0);
        assert!((table.sample(size / 4) - FULL_SCALE).abs() <= 1);
        assert!((table.sample(3 * size / 4) + FULL_SCALE).abs() <= 1);
        assert!(table.sample(size / 2).abs() <= 1);
    }
}

#[test]
fn sine_table_of_four_is_zero_one_zero_minus_one() {
    let table = WaveTable::new(sine_samples(4)).unwrap();
    assert_eq!(table.sample(0), 0);
    assert_eq!(table.sample(1), FULL_SCALE);
    assert_eq!(table.sample(2), 0);
    assert_eq!(table.sample(3), -FULL_SCALE);
}
