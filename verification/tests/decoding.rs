use piex_nodetree::data::{decode_value, RawValue, RegistriesData};
use piex_nodetree::utf16::{decode_utf16, decode_utf16_lossy, decode_utf16_strict};

fn wide_bytes(units: &[u16]) -> Vec<u8> {
    let mut out = Vec::new();
    for u in units {
        out.push((u & 0xFF) as u8);
        out.push((u >> 8) as u8);
    }
    out
}

#[test]
fn decode_utf16_lossy_test() {
    // Arrange
    let utf16_codes: &[u16] = &[
        0x0041, 0x0075, 0x0074, 0x006F, 0x0064, 0x0065, 0x0073, 0x006B, 0x0020, 0x0041, 0x0075,
        0x0074, 0x006F, 0x0043, 0x0041, 0x0044, 0x0020, 0x0032, 0x0030, 0x0032, 0x0033, 0x0020,
        0x002D, 0x0020, 0x7B80, 0x4F53, 0x4E2D, 0x6587, 0x0020, 0x0028, 0x0053, 0x0069, 0x006D,
        0x0070, 0x006C, 0x0069, 0x0066, 0x0069, 0x0065, 0x0064, 0x0020, 0x0043, 0x0068, 0x0069,
        0x006E, 0x0065, 0x0073, 0x0065, 0x0029, 0x0000, 0x736D, 0x0069, 0xA28C, 0x0FCB, 0x24EB,
        0x9000, 0xDA20, 0x0000,
    ];

    // Act
    let code = decode_utf16_lossy(utf16_codes);
    println!("{}", &code);

    // Assert
    assert_eq!(
        code,
        "Autodesk AutoCAD 2023 - \u{7B80}\u{4F53}\u{4E2D}\u{6587} (Simplified Chinese)"
    );
}

#[test]
fn lossy_decode_truncates_at_first_nul() {
    // the concrete truncation case: stops at the zero, discards the rest
    let units: &[u16] = &[0x0041, 0x0075, 0x0074, 0x006F, 0x0000, 0x7B80];
    assert_eq!("Auto", decode_utf16_lossy(units));
}

#[test]
fn lossy_decode_without_nul_decodes_whole_buffer() {
    let units: &[u16] = &[0x0041, 0x0075, 0x0074, 0x006F];
    assert_eq!("Auto", decode_utf16_lossy(units));
    assert_eq!(decode_utf16(units), decode_utf16_lossy(units));
}

#[test]
fn lossy_decode_is_deterministic() {
    // same buffer, same result: the decoder keeps no hidden state
    let units: &[u16] = &[0x0041, 0xD83D, 0xDE00, 0x0042];
    assert_eq!(decode_utf16_lossy(units), decode_utf16_lossy(units));
}

#[test]
fn lossy_decode_replaces_unpaired_surrogates() {
    let units: &[u16] = &[0x0041, 0xD800, 0x0042];
    assert_eq!("A\u{FFFD}B", decode_utf16_lossy(units));
}

#[test]
fn lossy_decode_combines_surrogate_pairs() {
    let units: &[u16] = &[0xD83D, 0xDE00];
    assert_eq!("\u{1F600}", decode_utf16_lossy(units));
}

#[test]
fn strict_decode_refuses_unpaired_surrogates() {
    assert!(decode_utf16_strict(&[0x0041, 0xD800, 0x0042]).is_none());
    assert_eq!(Some(String::from("AB")), decode_utf16_strict(&[0x0041, 0x0042]));
}

#[test]
fn decode_string_value() {
    let raw = RawValue {
        ty: 1,
        data: wide_bytes(&[0x0048, 0x0069, 0x0000, 0x9999]),
    };
    match decode_value(&raw) {
        RegistriesData::String(s) => assert_eq!("Hi", s),
        other => panic!("expected String, got {:?}", other),
    }
}

#[test]
fn decode_expand_string_value() {
    let raw = RawValue {
        ty: 2,
        data: wide_bytes(&[0x0025, 0x0050, 0x0025, 0x0000]),
    };
    match decode_value(&raw) {
        RegistriesData::String(s) => assert_eq!("%P%", s),
        other => panic!("expected String, got {:?}", other),
    }
}

#[test]
fn decode_u32_value() {
    let raw = RawValue {
        ty: 4,
        data: vec![0x78, 0x56, 0x34, 0x12],
    };
    match decode_value(&raw) {
        RegistriesData::U32(x) => assert_eq!(0x12345678, x),
        other => panic!("expected U32, got {:?}", other),
    }
}

#[test]
fn decode_u32_with_wrong_width_degrades() {
    let raw = RawValue {
        ty: 4,
        data: vec![0x78, 0x56, 0x34],
    };
    assert!(matches!(decode_value(&raw), RegistriesData::Nothing));
}

#[test]
fn decode_u64_value() {
    let raw = RawValue {
        ty: 11,
        data: vec![0xEF, 0xCD, 0xAB, 0x89, 0x67, 0x45, 0x23, 0x01],
    };
    match decode_value(&raw) {
        RegistriesData::U64(x) => assert_eq!(0x0123456789ABCDEF, x),
        other => panic!("expected U64, got {:?}", other),
    }
}

#[test]
fn decode_bytes_value_keeps_all_bytes() {
    let raw = RawValue {
        ty: 3,
        data: vec![1, 2, 3, 4, 5],
    };
    match decode_value(&raw) {
        RegistriesData::Bytes(b) => assert_eq!(vec![1, 2, 3, 4, 5], b),
        other => panic!("expected Bytes, got {:?}", other),
    }
}

#[test]
fn decode_multi_string_value() {
    let raw = RawValue {
        ty: 7,
        data: wide_bytes(&[0x0061, 0x0000, 0x0062, 0x0063, 0x0000, 0x0000]),
    };
    match decode_value(&raw) {
        RegistriesData::MultiString(v) => assert_eq!(vec!["a".to_string(), "bc".to_string()], v),
        other => panic!("expected MultiString, got {:?}", other),
    }
}

#[test]
fn decode_empty_multi_string_value() {
    let raw = RawValue {
        ty: 7,
        data: wide_bytes(&[0x0000]),
    };
    match decode_value(&raw) {
        RegistriesData::MultiString(v) => assert!(v.is_empty()),
        other => panic!("expected MultiString, got {:?}", other),
    }
}

#[test]
fn decode_multi_string_without_terminator_degrades() {
    let raw = RawValue {
        ty: 7,
        data: wide_bytes(&[0x0061, 0x0062]),
    };
    assert!(matches!(decode_value(&raw), RegistriesData::Nothing));
}

#[test]
fn decode_multi_string_with_bad_utf16_degrades() {
    let raw = RawValue {
        ty: 7,
        data: wide_bytes(&[0xD800, 0x0000, 0x0000]),
    };
    assert!(matches!(decode_value(&raw), RegistriesData::Nothing));
}

#[test]
fn unknown_type_tag_decodes_to_raw() {
    // an unrecognized tag is kept, never an error
    let raw = RawValue {
        ty: 99,
        data: vec![1, 2, 3],
    };
    match decode_value(&raw) {
        RegistriesData::Raw(t) => assert_eq!(99, t),
        other => panic!("expected Raw, got {:?}", other),
    }
}

#[test]
fn reg_none_tag_decodes_to_raw_zero() {
    let raw = RawValue { ty: 0, data: vec![] };
    assert!(matches!(decode_value(&raw), RegistriesData::Raw(0)));
}
