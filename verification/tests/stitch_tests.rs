use scalpel::errors::SigningError;
use scalpel::stitch::{sort_vec_by_offset, stitch, stitch_files, FillPattern};

#[test]
fn stitch_scenario_two_files() {
    // fileA = [1,1,1,1] at 0, fileB = [2,2,2,2] at 8, zero fill
    // -> [1,1,1,1,0,0,0,0,2,2,2,2]
    let files = vec![vec![1u8, 1, 1, 1], vec![2u8, 2, 2, 2]];
    let offsets = vec![0usize, 8];
    let out = stitch_files(files, offsets, FillPattern::Zero).expect("stitch failed");
    assert_eq!(out, vec![1u8, 1, 1, 1, 0, 0, 0, 0, 2, 2, 2, 2]);
}

#[test]
fn stitch_gap_filled_with_ones() {
    let files = vec![vec![9u8, 9], vec![7u8]];
    let offsets = vec![0usize, 5];
    let out = stitch_files(files, offsets, FillPattern::One).expect("stitch failed");
    assert_eq!(out, vec![9u8, 9, 1, 1, 1, 7]);
}

#[test]
fn stitch_gap_filled_with_zeros() {
    let files = vec![vec![9u8, 9], vec![7u8]];
    let offsets = vec![0usize, 5];
    let out = stitch_files(files, offsets, FillPattern::Zero).expect("stitch failed");
    assert_eq!(out, vec![9u8, 9, 0, 0, 0, 7]);
}

#[test]
fn stitch_unsorted_input_lands_sorted() {
    let files = vec![vec![2u8, 2], vec![1u8, 1]];
    let offsets = vec![4usize, 0];
    let out = stitch_files(files, offsets, FillPattern::Zero).expect("stitch failed");
    assert_eq!(out, vec![1u8, 1, 0, 0, 2, 2]);
}

#[test]
fn stitch_overlap_is_rejected() {
    // the first span [0, 5) runs into the offset 3 claimed by the second
    let files = vec![vec![1u8, 1, 1, 1, 1], vec![2u8]];
    let offsets = vec![0usize, 3];
    assert_eq!(
        stitch_files(files, offsets, FillPattern::Zero),
        Err(SigningError::OverlapError)
    );
}

#[test]
fn stitch_touching_spans_are_accepted() {
    let files = vec![vec![1u8, 1, 1], vec![2u8, 2]];
    let offsets = vec![0usize, 3];
    let out = stitch_files(files, offsets, FillPattern::Zero).expect("stitch failed");
    assert_eq!(out, vec![1u8, 1, 1, 2, 2]);
}

#[test]
fn stitch_equal_offsets_are_rejected() {
    let files = vec![vec![1u8], vec![2u8]];
    let offsets = vec![3usize, 3];
    assert_eq!(
        stitch_files(files, offsets, FillPattern::Zero),
        Err(SigningError::ArgumentError)
    );
}

#[test]
fn stitch_no_files_is_empty() {
    let out = stitch_files(Vec::new(), Vec::new(), FillPattern::Zero).expect("stitch failed");
    assert!(out.is_empty());
}

#[test]
fn stitch_random_fill_keeps_content_and_length() {
    let files = vec![vec![5u8, 5], vec![6u8, 6]];
    let offsets = vec![0usize, 10];
    let out = stitch_files(files, offsets, FillPattern::Random).expect("stitch failed");
    assert_eq!(out.len(), 12);
    assert_eq!(&out[0..2], &[5u8, 5]);
    assert_eq!(&out[10..12], &[6u8, 6]);
}

#[test]
fn stitch_step_reports_overlap() {
    let buf = vec![1u8, 2, 3];
    let more = vec![4u8];
    assert_eq!(
        stitch(buf, &more, 2, &FillPattern::Zero),
        Err(SigningError::OverlapError)
    );
}

#[test]
fn stitch_step_pads_and_appends() {
    let buf = vec![1u8, 2];
    let more = vec![4u8, 5];
    let out = stitch(buf, &more, 4, &FillPattern::One).expect("stitch step failed");
    assert_eq!(out, vec![1u8, 2, 1, 1, 4, 5]);
}

#[test]
fn sort_vec_by_offset_orders_pairs() {
    let names = vec!["c".to_string(), "a".to_string(), "b".to_string()];
    let offsets = vec![20usize, 0, 10];
    let (sorted_names, sorted_offsets) = sort_vec_by_offset(names, offsets).expect("sort failed");
    assert_eq!(sorted_offsets, vec![0usize, 10, 20]);
    assert_eq!(
        sorted_names,
        vec!["a".to_string(), "b".to_string(), "c".to_string()]
    );
}
