use starpoint_service::msgpack::{copy_msgpack_values, normalize_client_msgpack_numbers};

#[test]
fn normalizes_uint32_tags_outside_binary_values() {
    let packed = vec![
        0x93, 0xce, 0x7f, 0xff, 0xff, 0xff, 0xce, 0x80, 0x00, 0x00, 0x00, 0xc4, 0x05, 0xce, 0x00,
        0x00, 0x00, 0x01,
    ];
    let mut expected = vec![0x93, 0xd2, 0x7f, 0xff, 0xff, 0xff, 0xcb];
    expected.extend_from_slice(&2_147_483_648_f64.to_be_bytes());
    expected.extend_from_slice(&[0xc4, 0x05, 0xce, 0x00, 0x00, 0x00, 0x01]);

    assert_eq!(
        normalize_client_msgpack_numbers(&packed).ok().expect("response normalizes"),
        expected
    );
}

#[test]
fn large_uint32_becomes_the_same_float64() {
    for value in [0x8000_0000_u32, 0x8000_0001, 0xdead_beef, u32::MAX] {
        let mut packed = vec![0xce];
        packed.extend_from_slice(&value.to_be_bytes());
        let mut expected = vec![0xcb];
        expected.extend_from_slice(&f64::from(value).to_be_bytes());
        assert_eq!(normalize_client_msgpack_numbers(&packed).ok(), Some(expected));
    }
}

#[test]
fn small_uint32_keeps_its_bytes_as_int32() {
    assert_eq!(
        normalize_client_msgpack_numbers(&[0xce, 0x00, 0x00, 0x01, 0x02]).ok(),
        Some(vec![0xd2, 0x00, 0x00, 0x01, 0x02])
    );
}

#[test]
fn maps_and_nested_arrays_are_walked() {
    let packed = vec![
        0x81, 0xa1, b'a', 0xdc, 0x00, 0x02, 0xce, 0x00, 0x00, 0x00, 0x07, 0x91, 0xc0,
    ];
    let expected = vec![
        0x81, 0xa1, b'a', 0xdc, 0x00, 0x02, 0xd2, 0x00, 0x00, 0x00, 0x07, 0x91, 0xc0,
    ];
    assert_eq!(normalize_client_msgpack_numbers(&packed).ok(), Some(expected));
}

#[test]
fn other_values_are_copied_unchanged() {
    let packed = vec![
        0x05, 0xff, 0xc3, 0xcc, 0x10, 0xcd, 0x01, 0x02, 0xcf, 1, 2, 3, 4, 5, 6, 7, 8, 0xd4, 1, 2,
        0xc7, 0x02, 0x01, 0xaa, 0xbb,
    ];
    assert_eq!(normalize_client_msgpack_numbers(&packed).ok(), Some(packed.clone()));
}

#[test]
fn truncated_or_invalid_input_is_an_error() {
    assert!(normalize_client_msgpack_numbers(&[0xce, 0x00, 0x00]).is_err());
    assert!(normalize_client_msgpack_numbers(&[0x92, 0x01]).is_err());
    assert!(normalize_client_msgpack_numbers(&[0xc1]).is_err());
    assert!(normalize_client_msgpack_numbers(&[0xc4, 0x03, 0x00]).is_err());
    let error = normalize_client_msgpack_numbers(&[0xc1]).err().unwrap();
    assert_eq!(error.message, "failed to normalize CN MessagePack response");
}

#[test]
fn normalizing_twice_changes_nothing() {
    let packed = vec![
        0x93, 0xce, 0x7f, 0xff, 0xff, 0xff, 0xce, 0x80, 0x00, 0x00, 0x00, 0xc4, 0x05, 0xce, 0x00,
        0x00, 0x00, 0x01,
    ];
    let once = normalize_client_msgpack_numbers(&packed).ok().unwrap();
    let twice = normalize_client_msgpack_numbers(&once).ok().unwrap();
    assert_eq!(once, twice);
}

#[test]
fn empty_response_normalizes_to_empty() {
    assert_eq!(normalize_client_msgpack_numbers(&[]).ok(), Some(Vec::new()));
}

#[test]
fn copy_helpers_refuse_out_of_range_input_and_keep_the_output() {
    let packed = [0xd9u8, 0x03, b'a', 0xce, b'c', 0xc7, 0x01, 0x05, 0xff];
    let mut out = vec![9u8];
    assert!(starpoint_service::msgpack::copy_msgpack_bytes(&packed, 20, 0, &mut out).is_err());
    assert!(starpoint_service::msgpack::copy_msgpack_bytes(&packed, 8, 2, &mut out).is_err());
    assert!(starpoint_service::msgpack::copy_msgpack_bytes(&packed, 4, usize::MAX, &mut out).is_err());
    assert!(starpoint_service::msgpack::copy_length_prefixed_msgpack_bytes(&packed, 0, 3, &mut out).is_err());
    assert!(starpoint_service::msgpack::copy_length_prefixed_msgpack_bytes(&packed, usize::MAX, 1, &mut out).is_err());
    assert!(starpoint_service::msgpack::copy_ext_msgpack_bytes(&[0xc7, 0x05, 0x01], 0, 1, &mut out).is_err());
    assert_eq!(out, vec![9u8]);
    assert_eq!(starpoint_service::msgpack::copy_msgpack_bytes(&packed, 9, 0, &mut out).unwrap(), 9);
    assert_eq!(
        starpoint_service::msgpack::copy_length_prefixed_msgpack_bytes(&packed, 0, 1, &mut out).unwrap(),
        5
    );
    assert_eq!(out, vec![9u8, 0xd9, 0x03, b'a', 0xce, b'c']);
    let ext = [0xc7u8, 0x01, 0x05, 0xce];
    let mut ext_out = Vec::new();
    assert_eq!(starpoint_service::msgpack::copy_ext_msgpack_bytes(&ext, 0, 1, &mut ext_out).unwrap(), 4);
    assert_eq!(ext_out, ext.to_vec());
}

#[test]
fn failures_carry_the_normalization_error() {
    let err = normalize_client_msgpack_numbers(&[0xc1]).err().unwrap();
    assert_eq!(err.message, "failed to normalize CN MessagePack response");
    let mut out = Vec::new();
    let err = starpoint_service::msgpack::copy_msgpack_bytes(&[1, 2], 1, 5, &mut out).err().unwrap();
    assert_eq!(err.message, "failed to normalize CN MessagePack response");
}

#[test]
fn value_copies_split_and_keep_what_came_before_a_failure() {
    let packed = [0x01u8, 0x02, 0xc1, 0x03];
    // No values copy nothing, even past the end of the input.
    let mut out = vec![7u8];
    assert_eq!(copy_msgpack_values(&packed, 10, 0, &mut out).ok(), Some(10));
    assert_eq!(out, vec![7u8]);
    assert!(copy_msgpack_values(&packed, 10, 1, &mut out).is_err());
    assert_eq!(out, vec![7u8]);
    // Two values at once, or one and then one.
    let mut whole = Vec::new();
    assert_eq!(copy_msgpack_values(&packed, 0, 2, &mut whole).ok(), Some(2));
    let mut parts = Vec::new();
    let middle = copy_msgpack_values(&packed, 0, 1, &mut parts).ok().unwrap();
    assert_eq!(copy_msgpack_values(&packed, middle, 1, &mut parts).ok(), Some(2));
    assert_eq!(whole, parts);
    // The malformed third value fails the copy; the first two stay written.
    let mut failed = Vec::new();
    let err = copy_msgpack_values(&packed, 0, 4, &mut failed).err().unwrap();
    assert_eq!(err.message, "failed to normalize CN MessagePack response");
    assert_eq!(failed, vec![0x01, 0x02]);
}
