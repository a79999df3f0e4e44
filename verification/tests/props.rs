use tinystr::ule::as_byte_slice16;
use tinystr::ule::as_byte_slice4;
use tinystr::ule::parse_byte_slice16;
use tinystr::ule::parse_byte_slice4;
use tinystr::Error;
use tinystr::TinyStr16;
use tinystr::TinyStr4;
use tinystr::TinyStr8;
use tinystr::TinyStrAuto;

#[test]
fn roundtrip_all_capacities() {
    assert_eq!(TinyStr4::from_bytes(b"a").unwrap().as_str(), "a");
    assert_eq!(TinyStr4::from_bytes(b"Te5t").unwrap().as_str(), "Te5t");
    assert_eq!(TinyStr8::from_bytes(b"New York").unwrap().as_str(), "New York");
    assert_eq!(
        TinyStr16::from_bytes(b"metaMoRphosis123").unwrap().as_str(),
        "metaMoRphosis123"
    );
}

#[test]
fn ordering_concrete() {
    let fr = TinyStr4::from_bytes(b"fr").unwrap();
    let zh = TinyStr4::from_bytes(b"zh").unwrap();
    let aab = TinyStr4::from_bytes(b"aab").unwrap();
    assert_eq!(fr.partial_cmp(&zh), Some(std::cmp::Ordering::Less));
    assert_eq!(aab.partial_cmp(&fr), Some(std::cmp::Ordering::Less));
    assert_eq!(zh.partial_cmp(&fr), Some(std::cmp::Ordering::Greater));
    assert_eq!(fr.partial_cmp(&fr), Some(std::cmp::Ordering::Equal));
    // a proper prefix sorts first
    let ab = TinyStr4::from_bytes(b"ab").unwrap();
    let abc = TinyStr4::from_bytes(b"abc").unwrap();
    assert_eq!(ab.partial_cmp(&abc), Some(std::cmp::Ordering::Less));
}

#[test]
fn case_idempotent() {
    let s = TinyStr8::from_bytes(b"TeS3ing").unwrap();
    assert_eq!(
        s.to_ascii_uppercase().to_ascii_uppercase(),
        s.to_ascii_uppercase()
    );
    assert_eq!(
        s.to_ascii_lowercase().to_ascii_lowercase(),
        s.to_ascii_lowercase()
    );
    assert_eq!(
        s.to_ascii_titlecase().to_ascii_titlecase(),
        s.to_ascii_titlecase()
    );
}

#[test]
fn case_preserves_non_alphabetic() {
    let s = TinyStr4::from_bytes(b"a1b!").unwrap();
    assert_eq!(s.to_ascii_uppercase().as_str(), "A1B!");
    assert_eq!(s.to_ascii_lowercase().as_str(), "a1b!");
}

#[test]
fn auto_branch_selection() {
    let s4 = TinyStrAuto::from_str("shortNoAlloc").unwrap();
    assert!(matches!(s4, TinyStrAuto::Tiny { .. }));
    assert_eq!(s4.as_str(), "shortNoAlloc");

    let s5 = TinyStrAuto::from_str("longFallbackToHeap").unwrap();
    assert!(matches!(s5, TinyStrAuto::Heap { .. }));
    assert_eq!(s5.as_str(), "longFallbackToHeap");
}

#[test]
fn auto_empty_and_null() {
    assert_eq!(TinyStrAuto::from_str(""), Err(Error::InvalidSize));
    assert_eq!(TinyStrAuto::from_str("a\u{0}b"), Err(Error::InvalidNull));
    // the heap branch accepts a NUL, as it only checks for ASCII
    let long = TinyStrAuto::from_str("aaaaaaaaaaaaaaaa\u{0}b").unwrap();
    assert!(matches!(long, TinyStrAuto::Heap { .. }));
}

#[test]
fn unchecked_roundtrip() {
    let a = TinyStr4::from_bytes(b"Test").unwrap();
    assert_eq!(TinyStr4::new_unchecked(a.as_unsigned()), a);
    assert_eq!(TinyStr4::from_native_unchecked(a.as_unsigned()), a);
    let b = TinyStr8::from_bytes(b"Windows").unwrap();
    assert_eq!(TinyStr8::new_unchecked(b.as_unsigned()), b);
    assert_eq!(TinyStr8::from_native_unchecked(b.as_unsigned()), b);
    let c = TinyStr16::from_bytes(b"WindowsCE/ME/NT").unwrap();
    assert_eq!(TinyStr16::new_unchecked(c.as_unsigned()), c);
}

#[test]
fn from_le_integer_splits_at_nul() {
    // "foo" packed little-endian
    assert_eq!(
        TinyStr4::from_le_integer(0x6f6f66).unwrap().as_str(),
        "foo"
    );
    // bytes after the first NUL are discarded
    assert_eq!(
        TinyStr8::from_le_integer(0x62_0061).unwrap().as_str(),
        "a"
    );
    // an empty prefix is rejected
    assert_eq!(TinyStr16::from_le_integer(0), Err(Error::InvalidSize));
    // a non-ASCII byte before the first NUL is rejected
    assert_eq!(TinyStr4::from_le_integer(0xff61), Err(Error::NonAscii));
}

#[test]
fn byte_slice_adapters() {
    let v4: Vec<TinyStr4> = vec![
        TinyStr4::from_bytes(b"en").unwrap(),
        TinyStr4::from_bytes(b"fr").unwrap(),
    ];
    let bytes = as_byte_slice4(&v4);
    assert_eq!(bytes, vec![0x65, 0x6e, 0, 0, 0x66, 0x72, 0, 0]);
    assert_eq!(parse_byte_slice4(&bytes).unwrap(), v4);

    // a chunk with a non-ASCII byte rejects the whole buffer
    let bad = vec![0x65, 0x6e, 0, 0, 0xff, 0x72, 0, 0];
    assert_eq!(parse_byte_slice4(&bad), Err(Error::NonAscii));
    // an all-zero chunk is an empty element
    let empty = vec![0u8, 0, 0, 0];
    assert_eq!(parse_byte_slice4(&empty), Err(Error::InvalidSize));
    // trailing bytes that do not fill a chunk are ignored
    let partial = vec![0x65, 0x6e, 0, 0, 0x66];
    assert_eq!(parse_byte_slice4(&partial).unwrap().len(), 1);

    let v16: Vec<TinyStr16> = vec![TinyStr16::from_bytes(b"metamorphosis").unwrap()];
    let bytes16 = as_byte_slice16(&v16);
    assert_eq!(bytes16.len(), 16);
    assert_eq!(parse_byte_slice16(&bytes16).unwrap(), v16);
}

#[test]
fn error_messages() {
    assert_eq!(Error::InvalidSize.message(), "invalid size");
    assert_eq!(Error::InvalidNull.message(), "string is empty");
    assert_eq!(Error::NonAscii.message(), "contains non-ASCII");
}

#[test]
fn classification_boundaries() {
    // '@' and '[' bracket the upper-case letters; '/' and ':' the digits
    assert!(!TinyStr4::from_bytes(b"@").unwrap().is_ascii_alphabetic());
    assert!(TinyStr4::from_bytes(b"A").unwrap().is_ascii_alphabetic());
    assert!(TinyStr4::from_bytes(b"Z").unwrap().is_ascii_alphabetic());
    assert!(!TinyStr4::from_bytes(b"[").unwrap().is_ascii_alphabetic());
    assert!(!TinyStr4::from_bytes(b"`").unwrap().is_ascii_alphabetic());
    assert!(TinyStr4::from_bytes(b"a").unwrap().is_ascii_alphabetic());
    assert!(TinyStr4::from_bytes(b"z").unwrap().is_ascii_alphabetic());
    assert!(!TinyStr4::from_bytes(b"{").unwrap().is_ascii_alphabetic());
    assert!(!TinyStr4::from_bytes(b"/").unwrap().is_ascii_numeric());
    assert!(TinyStr4::from_bytes(b"0").unwrap().is_ascii_numeric());
    assert!(TinyStr4::from_bytes(b"9").unwrap().is_ascii_numeric());
    assert!(!TinyStr4::from_bytes(b":").unwrap().is_ascii_numeric());
    assert!(TinyStr4::from_bytes(b"a9Z0").unwrap().is_ascii_alphanumeric());
    assert!(!TinyStr4::from_bytes(b"a9 0").unwrap().is_ascii_alphanumeric());
}
