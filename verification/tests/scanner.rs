use tilde_unify::{count_tilde, unify_tilde, TruncatedSequenceError};

#[test]
fn empty_buffer() {
    assert_eq!(unify_tilde(vec![]), Ok(vec![]));
    assert_eq!(count_tilde(vec![]), Ok((0, 0)));
}

#[test]
fn single_fullwidth_tilde() {
    assert_eq!(unify_tilde(vec![0x8F, 0xA2, 0xB7]), Ok(vec![0xA1, 0xC1]));
    assert_eq!(count_tilde(vec![0x8F, 0xA2, 0xB7]), Ok((0, 1)));
}

#[test]
fn wave_dashes_stay() {
    let input = vec![0xA1, 0xC1, 0xA1, 0xC1];
    assert_eq!(unify_tilde(input.clone()), Ok(input.clone()));
    assert_eq!(count_tilde(input), Ok((2, 0)));
}

#[test]
fn mixed_segments() {
    let input = vec![0x61, 0xA4, 0xA2, 0x8F, 0xA2, 0xB7, 0x8F, 0xD7, 0xD4];
    assert_eq!(
        unify_tilde(input.clone()),
        Ok(vec![0x61, 0xA4, 0xA2, 0xA1, 0xC1, 0x8F, 0xD7, 0xD4])
    );
    assert_eq!(count_tilde(input), Ok((0, 1)));
}

#[test]
fn nothing_to_rewrite() {
    let input = vec![0x61, 0xA4, 0xA2, 0x8F, 0xD7, 0xD4, 0x0A];
    assert_eq!(unify_tilde(input.clone()), Ok(input.clone()));
    assert_eq!(count_tilde(input), Ok((0, 0)));
}

#[test]
fn ascii_only() {
    let input = vec![0x00, 0x41, 0x7E, 0x7F, 0x0A];
    assert_eq!(unify_tilde(input.clone()), Ok(input.clone()));
    assert_eq!(count_tilde(input), Ok((0, 0)));
}

#[test]
fn pattern_bytes_across_a_boundary_are_no_pattern() {
    // 0xA4 0x8F is one double-byte segment, 0xA2 0xB7 the next: no tilde.
    let input = vec![0xA4, 0x8F, 0xA2, 0xB7];
    assert_eq!(unify_tilde(input.clone()), Ok(input.clone()));
    assert_eq!(count_tilde(input), Ok((0, 0)));

    // 0xA1 0xC1 inside a supplementary segment is no wave dash.
    let input = vec![0x8F, 0xA1, 0xC1];
    assert_eq!(unify_tilde(input.clone()), Ok(input.clone()));
    assert_eq!(count_tilde(input), Ok((0, 0)));

    // 0xB0 0xA1 and 0xC1 0xB0: the wave-dash bytes straddle two segments.
    let input = vec![0xB0, 0xA1, 0xC1, 0xB0];
    assert_eq!(unify_tilde(input.clone()), Ok(input.clone()));
    assert_eq!(count_tilde(input), Ok((0, 0)));
}

#[test]
fn half_matching_supplementary_segments_stay() {
    let input = vec![0x8F, 0xA2, 0xB8, 0x8F, 0xA3, 0xB7];
    assert_eq!(unify_tilde(input.clone()), Ok(input.clone()));
    assert_eq!(count_tilde(input), Ok((0, 0)));
}

#[test]
fn half_matching_double_byte_segments_are_not_counted() {
    assert_eq!(count_tilde(vec![0xA1, 0xC2, 0xA2, 0xC1]), Ok((0, 0)));
}

#[test]
fn truncated_supplementary_segment() {
    assert_eq!(
        unify_tilde(vec![0x8F]),
        Err(TruncatedSequenceError { offset: 0 })
    );
    assert_eq!(
        unify_tilde(vec![0x61, 0x8F, 0xA2]),
        Err(TruncatedSequenceError { offset: 1 })
    );
    assert_eq!(
        count_tilde(vec![0x8F, 0xA2, 0xB7, 0x8F, 0xA2]),
        Err(TruncatedSequenceError { offset: 3 })
    );
    assert_eq!(
        count_tilde(vec![0x61, 0x62, 0x8F]),
        Err(TruncatedSequenceError { offset: 2 })
    );
}

#[test]
fn truncated_double_byte_segment() {
    assert_eq!(
        unify_tilde(vec![0xA1]),
        Err(TruncatedSequenceError { offset: 0 })
    );
    assert_eq!(
        unify_tilde(vec![0xA1, 0xC1, 0xA1]),
        Err(TruncatedSequenceError { offset: 2 })
    );
    assert_eq!(
        count_tilde(vec![0xA4, 0xA2, 0x61, 0xFF]),
        Err(TruncatedSequenceError { offset: 3 })
    );
}

#[test]
fn rewriting_twice_is_rewriting_once() {
    let input = vec![
        0x8F, 0xA2, 0xB7, 0x61, 0xA1, 0xC1, 0x8F, 0xA2, 0xB7, 0x8F, 0xD7, 0xD4, 0x0A,
    ];
    let once = unify_tilde(input).unwrap();
    let twice = unify_tilde(once.clone()).unwrap();
    assert_eq!(
        once,
        vec![0xA1, 0xC1, 0x61, 0xA1, 0xC1, 0xA1, 0xC1, 0x8F, 0xD7, 0xD4, 0x0A]
    );
    assert_eq!(twice, once);
}

#[test]
fn counts_before_and_after_rewriting() {
    let input = vec![
        0x8F, 0xA2, 0xB7, 0x61, 0xA1, 0xC1, 0x8F, 0xA2, 0xB7, 0x8F, 0xD7, 0xD4, 0x0A,
    ];
    assert_eq!(count_tilde(input.clone()), Ok((1, 2)));
    let output = unify_tilde(input).unwrap();
    assert_eq!(count_tilde(output), Ok((3, 0)));
}

#[test]
fn each_fullwidth_tilde_shortens_by_one_byte() {
    let input = vec![
        0x8F, 0xA2, 0xB7, 0x61, 0xA1, 0xC1, 0x8F, 0xA2, 0xB7, 0x8F, 0xD7, 0xD4, 0x0A,
    ];
    let (_, tildes) = count_tilde(input.clone()).unwrap();
    let output = unify_tilde(input.clone()).unwrap();
    assert_eq!(tildes, 2);
    assert_eq!(output.len(), 11);
    assert_eq!(output.len() as u64, input.len() as u64 - tildes);

    let untouched = vec![0x61, 0xA1, 0xC1, 0x8F, 0xD7, 0xD4];
    assert_eq!(count_tilde(untouched.clone()), Ok((1, 0)));
    assert_eq!(unify_tilde(untouched.clone()).unwrap().len(), untouched.len());
}

#[test]
fn other_segments_keep_their_bytes_and_order() {
    let input = vec![
        0x41, 0x8F, 0xA2, 0xB7, 0xB0, 0xA1, 0x42, 0x8F, 0xB0, 0xA1, 0x8F, 0xA2, 0xB7, 0x43,
    ];
    assert_eq!(
        unify_tilde(input),
        Ok(vec![
            0x41, 0xA1, 0xC1, 0xB0, 0xA1, 0x42, 0x8F, 0xB0, 0xA1, 0xA1, 0xC1, 0x43
        ])
    );
}
