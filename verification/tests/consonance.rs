use constraint_mux::consonance::{
    bin_cells, clamp_bin, just_intervals, midi_to_note, nearest_just_interval, record_count,
    zero_counts, JustInterval, LatticePoint, JUST_INTERVAL_COUNT, START_ERROR_KEY,
};

#[test]
fn test_lattice_copy_eq() {
    let a = LatticePoint::new(1, 2, 3);
    let b = a;
    assert_eq!(a, b);
}

#[test]
fn lattice_new_and_zero_fields() {
    let p = LatticePoint::new(-3, 2, -1);
    assert_eq!((p.a, p.b, p.c), (-3, 2, -1));
    let z = LatticePoint::zero();
    assert_eq!(z.a, 0);
    assert_eq!(z.b, 0);
    assert_eq!(z.c, 0);
}

#[test]
fn squared_distance_values() {
    let origin = LatticePoint::zero();
    assert_eq!(origin.squared_distance(&origin), 0);
    assert_eq!(origin.squared_distance(&LatticePoint::new(1, 0, 0)), 1);
    let a = LatticePoint::new(1, 2, 3);
    let b = LatticePoint::new(-1, -2, -3);
    assert_eq!(a.squared_distance(&b), 4 + 16 + 36);
    assert_eq!(a.squared_distance(&b), b.squared_distance(&a));
    let lo = LatticePoint::new(-128, -128, -128);
    let hi = LatticePoint::new(127, 127, 127);
    assert_eq!(lo.squared_distance(&hi), 3 * 255 * 255);
}

#[test]
fn just_interval_table_entries() {
    let t = just_intervals();
    assert_eq!(t.len(), JUST_INTERVAL_COUNT);
    assert_eq!(
        t[0],
        JustInterval { numerator: 1, denominator: 1, point: LatticePoint::new(0, 0, 0) }
    );
    assert_eq!(
        t[7],
        JustInterval { numerator: 3, denominator: 2, point: LatticePoint::new(-1, 1, 0) }
    );
    assert_eq!(
        t[12],
        JustInterval { numerator: 2, denominator: 1, point: LatticePoint::new(1, 0, 0) }
    );
    assert_eq!(t[1].point, LatticePoint::new(4, -1, -1));
    assert_eq!(t[9].point, LatticePoint::new(0, -1, 1));
}

fn keys_for(r: f64) -> Vec<u64> {
    just_intervals()
        .iter()
        .map(|iv| (r - iv.numerator as f64 / iv.denominator as f64).abs().to_bits())
        .collect()
}

#[test]
fn nearest_interval_fifth_third_octave() {
    assert_eq!(nearest_just_interval(&keys_for(1.5)), LatticePoint::new(-1, 1, 0));
    assert_eq!(nearest_just_interval(&keys_for(1.25)), LatticePoint::new(-2, 0, 1));
    assert_eq!(nearest_just_interval(&keys_for(2.0)), LatticePoint::new(1, 0, 0));
    assert_eq!(nearest_just_interval(&keys_for(1.0)), LatticePoint::new(0, 0, 0));
}

#[test]
fn nearest_interval_no_key_below_bound_is_unison() {
    let keys = vec![u64::MAX; JUST_INTERVAL_COUNT];
    assert_eq!(nearest_just_interval(&keys), LatticePoint::zero());
    let keys = vec![START_ERROR_KEY; JUST_INTERVAL_COUNT];
    assert_eq!(nearest_just_interval(&keys), LatticePoint::zero());
    // a NaN error never wins
    assert_eq!(nearest_just_interval(&keys_for(f64::NAN)), LatticePoint::zero());
}

#[test]
fn nearest_interval_first_of_ties_wins() {
    let mut keys = vec![100u64; JUST_INTERVAL_COUNT];
    keys[2] = 5;
    keys[5] = 5;
    assert_eq!(nearest_just_interval(&keys), LatticePoint::new(-3, 2, 0));
    keys[11] = 4;
    assert_eq!(nearest_just_interval(&keys), LatticePoint::new(-3, 1, 1));
}

#[test]
fn midi_note_names_and_octaves() {
    assert_eq!(midi_to_note(69), ("A".to_string(), 4));
    assert_eq!(midi_to_note(60), ("C".to_string(), 4));
    assert_eq!(midi_to_note(48), ("C".to_string(), 3));
    assert_eq!(midi_to_note(61), ("C#".to_string(), 4));
    assert_eq!(midi_to_note(71), ("B".to_string(), 4));
    assert_eq!(midi_to_note(12), ("C".to_string(), 0));
}

#[test]
fn midi_note_below_zero_wraps_octave() {
    assert_eq!(midi_to_note(0), ("C".to_string(), u32::MAX));
    assert_eq!(midi_to_note(-1), ("B".to_string(), u32::MAX));
    assert_eq!(midi_to_note(-13), ("B".to_string(), u32::MAX - 1));
    assert_eq!(midi_to_note(i32::MIN).0, "E".to_string());
}

#[test]
fn counts_grid_records_symmetrically() {
    let mut g = zero_counts(5);
    assert_eq!(g.len(), 5);
    assert!(g.iter().all(|r| r.len() == 5 && r.iter().all(|&v| v == 0)));
    record_count(&mut g, 1, 3);
    record_count(&mut g, 2, 2);
    assert_eq!(g[1][3], 1);
    assert_eq!(g[3][1], 1);
    assert_eq!(g[2][2], 1);
    for i in 0..5 {
        for j in 0..5 {
            assert_eq!(g[i][j], g[j][i]);
        }
    }
    let total: u32 = g.iter().flat_map(|r| r.iter()).sum();
    assert_eq!(total, 3);
}

#[test]
fn bin_cells_mirror_distinct_bins() {
    assert_eq!(bin_cells(4, 4), vec![(4, 4)]);
    assert_eq!(bin_cells(1, 7), vec![(1, 7), (7, 1)]);
}

#[test]
fn clamp_bin_keeps_last_bin() {
    assert_eq!(clamp_bin(0, 10), 0);
    assert_eq!(clamp_bin(5, 10), 5);
    assert_eq!(clamp_bin(10, 10), 9);
    assert_eq!(clamp_bin(usize::MAX, 1), 0);
}

fn lattice_fraction(p: LatticePoint) -> (i64, i64) {
    let (mut num, mut den) = (1i64, 1i64);
    for (base, e) in [(2i64, p.a), (3, p.b), (5, p.c)] {
        if e > 0 {
            num *= base.pow(e as u32);
        } else {
            den *= base.pow((-e) as u32);
        }
    }
    (num, den)
}

#[test]
fn table_coordinates_denote_ratios() {
    for (i, iv) in just_intervals().iter().enumerate() {
        let (num, den) = lattice_fraction(iv.point);
        assert_eq!(iv.numerator as i64 * den, iv.denominator as i64 * num, "entry {}", i);
    }
}

#[test]
fn nearest_interval_minor_second_and_major_sixth() {
    assert_eq!(nearest_just_interval(&keys_for(16.0 / 15.0)), LatticePoint::new(4, -1, -1));
    assert_eq!(nearest_just_interval(&keys_for(5.0 / 3.0)), LatticePoint::new(0, -1, 1));
}

#[test]
fn octave_up_keeps_name() {
    for m in [12, 60, 69, 100, 1000] {
        let (n1, o1) = midi_to_note(m);
        let (n2, o2) = midi_to_note(m + 12);
        assert_eq!(n1, n2);
        assert_eq!(o2, o1 + 1);
    }
}
