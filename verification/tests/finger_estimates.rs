use chordclaw::{estimated_finger_count, MAX_STRING_COUNT};

fn frets(values: &[Option<u8>]) -> [Option<u8>; MAX_STRING_COUNT] {
    let mut out = [None; MAX_STRING_COUNT];
    for (idx, value) in values.iter().copied().enumerate() {
        out[idx] = value;
    }
    out
}


#[test]
fn finger_estimate_allows_real_barres_across_muted_strings() {
    let f_with_muted_g = frets(&[Some(1), Some(3), Some(3), None, Some(1), Some(1)]);
    assert_eq!(estimated_finger_count(&f_with_muted_g, 6), 3);

    let partial_f_with_muted_g = frets(&[Some(1), Some(3), Some(1), None, Some(1), Some(1)]);
    assert_eq!(estimated_finger_count(&partial_f_with_muted_g, 6), 2);
}

#[test]
fn finger_estimate_does_not_treat_sparse_endpoints_as_a_barre() {
    let sparse = frets(&[Some(1), None, None, None, None, Some(1)]);
    assert_eq!(estimated_finger_count(&sparse, 6), 2);
}
