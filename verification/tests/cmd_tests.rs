use scalpel::cmd_serialize::{deserialize_suffix, resolve_range, serialize_cmd_opt};
use scalpel::errors::SigningError;

#[test]
fn suffixes_map_to_their_factors() {
    assert_eq!(deserialize_suffix("Ki"), Ok(1024));
    assert_eq!(deserialize_suffix("Mi"), Ok(1024 * 1024));
    assert_eq!(deserialize_suffix("Gi"), Ok(1024 * 1024 * 1024));
    assert_eq!(deserialize_suffix("K"), Ok(1000));
    assert_eq!(deserialize_suffix("M"), Ok(1000 * 1000));
    assert_eq!(deserialize_suffix("G"), Ok(1000 * 1000 * 1000));
    assert_eq!(deserialize_suffix(""), Ok(1));
}

#[test]
fn unknown_suffixes_are_rejected() {
    assert_eq!(deserialize_suffix("X"), Err(SigningError::ArgumentError));
    assert_eq!(deserialize_suffix("KiB"), Err(SigningError::ArgumentError));
    assert_eq!(deserialize_suffix("k"), Err(SigningError::ArgumentError));
    assert_eq!(deserialize_suffix("iK"), Err(SigningError::ArgumentError));
}

#[test]
fn sizes_with_suffixes_parse() {
    assert_eq!(serialize_cmd_opt("4Ki".to_string()), Ok(4096));
    assert_eq!(serialize_cmd_opt("1000".to_string()), Ok(1000));
    assert_eq!(serialize_cmd_opt("2M".to_string()), Ok(2_000_000));
    assert_eq!(serialize_cmd_opt("1Gi".to_string()), Ok(1_073_741_824));
    assert_eq!(serialize_cmd_opt("0".to_string()), Ok(0));
    assert_eq!(
        serialize_cmd_opt("18446744073709551615".to_string()),
        Ok(u64::MAX)
    );
}

#[test]
fn bad_sizes_are_rejected() {
    assert_eq!(
        serialize_cmd_opt("".to_string()),
        Err(SigningError::ArgumentError)
    );
    assert_eq!(
        serialize_cmd_opt("Ki".to_string()),
        Err(SigningError::ArgumentError)
    );
    assert_eq!(
        serialize_cmd_opt("4X".to_string()),
        Err(SigningError::ArgumentError)
    );
    assert_eq!(
        serialize_cmd_opt("4Ki4".to_string()),
        Err(SigningError::ArgumentError)
    );
}

#[test]
fn oversized_values_are_rejected() {
    // one digit past the largest 64-bit value
    assert_eq!(
        serialize_cmd_opt("18446744073709551616".to_string()),
        Err(SigningError::ArgumentError)
    );
    // a product that only overflows once the suffix is applied
    assert_eq!(
        serialize_cmd_opt("18446744073709551615Ki".to_string()),
        Err(SigningError::ArgumentError)
    );
}

#[test]
fn range_from_end_or_size() {
    assert_eq!(resolve_range(Some(2), Some(10), None), Ok((2, 8)));
    assert_eq!(resolve_range(None, Some(10), None), Ok((0, 10)));
    assert_eq!(resolve_range(Some(3), None, Some(7)), Ok((3, 7)));
    assert_eq!(resolve_range(None, None, Some(7)), Ok((0, 7)));
}

#[test]
fn range_argument_errors() {
    assert_eq!(
        resolve_range(Some(1), Some(5), Some(4)),
        Err(SigningError::ArgumentError)
    );
    assert_eq!(
        resolve_range(Some(1), None, None),
        Err(SigningError::ArgumentError)
    );
    assert_eq!(
        resolve_range(Some(5), Some(5), None),
        Err(SigningError::ArgumentError)
    );
    assert_eq!(
        resolve_range(Some(6), Some(5), None),
        Err(SigningError::ArgumentError)
    );
}
