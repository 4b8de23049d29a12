use lane_render::quantize::{quantize_unit, ApproxTable, FP_DOMAIN, FP_ONE, TABLE_LEN};

/// Fixed-point representation (16 fractional bits) of a float.
fn to_fixed(v: f64) -> i64 {
    (v * 65536.0).round() as i64
}

/// The table entry formula: `round(clamp(tanh(x), 0, 1) * 255)` at
/// bucket `i` of the domain [0, 5].
fn table_entry(i: usize) -> u8 {
    let x = 5.0 * (i as f64) / 255.0;
    (x.tanh().clamp(0.0, 1.0) * 255.0).round() as u8
}

fn build_table() -> ApproxTable {
    let mut entries: Vec<u8> = Vec::new();
    for i in 0..TABLE_LEN {
        entries.push(table_entry(i));
    }
    ApproxTable::from_entries(entries).expect("tanh entries are valid")
}

/// The exact strategy applied to the raw pre-tanh argument `x`.
fn exact_level(x: f64) -> u8 {
    (x.tanh().clamp(0.0, 1.0) * 255.0).round() as u8
}

#[test]
fn exact_quantizer_hits_reference_levels() {
    assert_eq!(quantize_unit(0), 0);
    assert_eq!(quantize_unit(FP_ONE), 255);
    // 0.5 scales to 127.5 and rounds up.
    assert_eq!(quantize_unit(32768), 128);
    // Out-of-range intensities clamp to the edges.
    assert_eq!(quantize_unit(-5), 0);
    assert_eq!(quantize_unit(i64::MIN), 0);
    assert_eq!(quantize_unit(FP_ONE + 1), 255);
    assert_eq!(quantize_unit(i64::MAX), 255);
}

#[test]
fn table_round_trip_endpoints() {
    let t = build_table();
    assert_eq!(t.entry(0), 0);
    assert_eq!(t.entry(0), (0f64.tanh().clamp(0.0, 1.0) * 255.0).round() as u8);
    assert!(t.entry(TABLE_LEN - 1) >= 254);
}

#[test]
fn table_lookup_clamps_to_domain_edges() {
    let t = build_table();
    assert_eq!(t.lookup(-100), t.lookup(0));
    assert_eq!(t.lookup(0), 0);
    assert_eq!(t.lookup(FP_DOMAIN), t.entry(TABLE_LEN - 1));
    assert_eq!(t.lookup(FP_DOMAIN + 99999), t.entry(TABLE_LEN - 1));
}

#[test]
fn table_stays_within_two_levels_of_exact() {
    let t = build_table();
    // Sample the whole valid domain [0, 5] densely.
    for k in 0..=5000 {
        let x = 5.0 * (k as f64) / 5000.0;
        let approx = t.lookup(to_fixed(x)) as i32;
        let exact = exact_level(x) as i32;
        assert!(
            (approx - exact).abs() <= 2,
            "at x = {x}: approximate {approx}, exact {exact}"
        );
    }
}

#[test]
fn invalid_entries_are_rejected() {
    // Wrong length.
    assert!(ApproxTable::from_entries(vec![0u8; 10]).is_none());
    // First entry not zero.
    let mut e = vec![0u8; TABLE_LEN];
    for i in 0..TABLE_LEN {
        e[i] = table_entry(i);
    }
    e[0] = 1;
    assert!(ApproxTable::from_entries(e).is_none());
    // Last entry too far below full scale.
    let mut e2 = vec![0u8; TABLE_LEN];
    for i in 0..TABLE_LEN {
        e2[i] = table_entry(i).min(200);
    }
    assert!(ApproxTable::from_entries(e2).is_none());
    // A decreasing pair.
    let mut e3 = vec![0u8; TABLE_LEN];
    for i in 0..TABLE_LEN {
        e3[i] = table_entry(i);
    }
    e3[100] = 0;
    assert!(ApproxTable::from_entries(e3).is_none());
    // A step of 6 levels between neighbours, still monotone.
    let mut e4 = vec![0u8; TABLE_LEN];
    for i in 0..TABLE_LEN {
        e4[i] = table_entry(i);
    }
    assert!(e4[1] + 1 <= e4[2]);
    e4[1] = 6;
    assert!(ApproxTable::from_entries(e4).is_none());
}

#[test]
fn interpolation_lands_between_neighbouring_entries() {
    let t = build_table();
    // An argument of 1.0 plus about half a bucket interpolates between
    // buckets 51 and 52 (bucket positions advance 51 per unit).
    let x_half = FP_ONE + 643;
    let lo = t.entry(51).min(t.entry(52));
    let hi = t.entry(51).max(t.entry(52));
    let v = t.lookup(x_half);
    assert!(lo <= v && v <= hi);
}
