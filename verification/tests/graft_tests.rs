use scalpel::errors::SigningError;
use scalpel::graft::graft_bytes;
use scalpel::stitch::FillPattern;

#[test]
fn graft_replaces_middle_range() {
    let input: Vec<u8> = (0u8..10).collect();
    let graft: Vec<u8> = vec![100, 101, 102];
    let out = graft_bytes(&input, &graft, 2, 3, &FillPattern::Zero).expect("graft failed");
    assert_eq!(out, vec![0u8, 1, 100, 101, 102, 5, 6, 7, 8, 9]);
}

#[test]
fn graft_length_with_interior_range() {
    // input length L = 10, start p = 2, size s = 3, graft length g = 5:
    // output length = p + g + (L - p - s)
    let input: Vec<u8> = (0u8..10).collect();
    let graft: Vec<u8> = vec![9u8; 5];
    let out = graft_bytes(&input, &graft, 2, 3, &FillPattern::Zero).expect("graft failed");
    assert_eq!(out.len(), 2 + 5 + (10 - 2 - 3));
}

#[test]
fn graft_length_when_replacing_tail() {
    // the range [6, 6 + 8) runs past the end: output length = p + g
    let input: Vec<u8> = (0u8..10).collect();
    let graft: Vec<u8> = vec![9u8; 3];
    let out = graft_bytes(&input, &graft, 6, 8, &FillPattern::Zero).expect("graft failed");
    assert_eq!(out.len(), 6 + 3);
    assert_eq!(out, vec![0u8, 1, 2, 3, 4, 5, 9, 9, 9]);
}

#[test]
fn graft_zero_size_is_rejected() {
    let input: Vec<u8> = vec![1, 2, 3];
    let graft: Vec<u8> = vec![9];
    assert_eq!(
        graft_bytes(&input, &graft, 1, 0, &FillPattern::Zero),
        Err(SigningError::ArgumentError)
    );
}

#[test]
fn graft_past_end_pads_the_gap() {
    // start lies past the input's end: the gap is padded per the pattern
    let input: Vec<u8> = vec![5, 5];
    let graft: Vec<u8> = vec![7, 7];
    let out = graft_bytes(&input, &graft, 4, 1, &FillPattern::One).expect("graft failed");
    assert_eq!(out, vec![5u8, 5, 1, 1, 7, 7]);
}

#[test]
fn graft_can_shrink_the_file() {
    let input: Vec<u8> = (0u8..8).collect();
    let graft: Vec<u8> = vec![50];
    let out = graft_bytes(&input, &graft, 1, 5, &FillPattern::Zero).expect("graft failed");
    assert_eq!(out, vec![0u8, 50, 6, 7]);
}

#[test]
fn graft_can_grow_the_file() {
    let input: Vec<u8> = vec![1, 2, 3, 4];
    let graft: Vec<u8> = vec![8, 8, 8, 8, 8];
    let out = graft_bytes(&input, &graft, 1, 2, &FillPattern::Zero).expect("graft failed");
    assert_eq!(out, vec![1u8, 8, 8, 8, 8, 8, 4]);
}
