use scalpel::cut::cut_out_bytes;
use scalpel::errors::SigningError;

#[test]
fn test_cut_out() {
    // generate a buffer with known byte content and cut some bytes out,
    // compare the result with the expected slice
    let bytes: Vec<u8> = vec![0, 1, 2, 3, 4, 5, 6, 7, 8, 10, 11, 12, 13, 14, 15, 16];

    let output = cut_out_bytes(&bytes, 5, 4, 1).expect("Failed to cut");

    println!("{:?}", output);
    assert_eq!(output.as_slice(), &bytes[5..9]);
}

#[test]
fn cut_scenario_sixteen_bytes() {
    // source = [0, 1, ..., 15]; cut(start=5, size=4) -> [5, 6, 7, 8]
    let source: Vec<u8> = (0u8..16).collect();
    let out = cut_out_bytes(&source, 5, 4, 8192).expect("cut failed");
    assert_eq!(out, vec![5u8, 6, 7, 8]);
}

#[test]
fn cut_exact_for_every_fragment_size() {
    let source: Vec<u8> = (0..1000).map(|_| rand::random::<u8>()).collect();
    let start = 123;
    let size = 456;
    for fragment_size in 1..=source.len() + 1 {
        let out = cut_out_bytes(&source, start, size, fragment_size).expect("cut failed");
        assert_eq!(out.as_slice(), &source[start..start + size]);
    }
}

#[test]
fn cut_whole_file() {
    let source: Vec<u8> = (0..257).map(|i| (i % 251) as u8).collect();
    let out = cut_out_bytes(&source, 0, source.len(), 64).expect("cut failed");
    assert_eq!(out, source);
}

#[test]
fn cut_start_past_end_is_seek_error() {
    let source: Vec<u8> = vec![1, 2, 3];
    assert_eq!(cut_out_bytes(&source, 4, 1, 8192), Err(SigningError::SeekError));
}

#[test]
fn cut_size_past_end_is_reading_error() {
    let source: Vec<u8> = vec![1, 2, 3];
    assert_eq!(cut_out_bytes(&source, 2, 2, 8192), Err(SigningError::ReadingError));
}

#[test]
fn cut_zero_size_is_empty() {
    let source: Vec<u8> = vec![1, 2, 3];
    let out = cut_out_bytes(&source, 3, 0, 8192).expect("cut failed");
    assert!(out.is_empty());
}
