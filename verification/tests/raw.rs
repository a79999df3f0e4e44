use tinystr::ule::as_byte_slice8;
use tinystr::ule::parse_byte_slice8;
use tinystr::Error;
use tinystr::TinyStr8;
use tinystr::try_u128_from_bytes;
use tinystr::try_u32_from_bytes;
use tinystr::try_u64_from_bytes;

#[test]
fn test_u32_from_bytes() {
    assert_eq!(0x6262_6161u32, try_u32_from_bytes(b"aabb").unwrap());
}

#[test]
fn test_u64_from_bytes() {
    assert_eq!(
        0x6262_6262_6161_6161u64,
        try_u64_from_bytes(b"aaaabbbb").unwrap()
    );
}

#[test]
fn test_u128_from_bytes() {
    assert_eq!(
        0x6262_6262_6262_6262_6161_6161_6161_6161u128,
        try_u128_from_bytes(b"aaaaaaaabbbbbbbb").unwrap()
    );
}

#[test]
fn test_roundtrip() {
    let strings = vec!["en", "us", "zh-CN"];
    let tinies: Vec<TinyStr8> = strings
        .iter()
        .map(|s| TinyStr8::from_bytes(s.as_bytes()).unwrap())
        .collect();
    let slice = as_byte_slice8(&tinies);
    let recouped_tinies = parse_byte_slice8(&slice).expect("Slice must parse");
    assert_eq!(tinies, recouped_tinies);
}

#[test]
fn test_raw_errors() {
    assert_eq!(try_u32_from_bytes(b""), Err(Error::InvalidSize));
    assert_eq!(try_u32_from_bytes(b"abcde"), Err(Error::InvalidSize));
    assert_eq!(try_u64_from_bytes(b"123456789"), Err(Error::InvalidSize));
    assert_eq!(try_u32_from_bytes(&[0x61, 0x80]), Err(Error::NonAscii));
    assert_eq!(try_u32_from_bytes(&[0x61, 0x00, 0x62]), Err(Error::InvalidNull));
    assert_eq!(
        try_u128_from_bytes(&[0x61, 0xff, 0x00]),
        Err(Error::NonAscii)
    );
}
