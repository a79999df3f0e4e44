use rand::SeedableRng;
use rand_distr::Alphanumeric;
use rand_distr::Distribution;
use rand_distr::Uniform;
use rand_pcg::Lcg64Xsh32;
use std::mem::size_of;
use std::ops::RangeInclusive;
use tinystr::Error;
use tinystr::TinyStr16;
use tinystr::TinyStr4;
use tinystr::TinyStr8;
use tinystr::TinyStrAuto;

/// Generates an array of random alphanumeric strings.
///
/// - lengths = range of lengths for the strings (chosen uniformly at random)
/// - count = number of strings to generate
fn random_alphanums(lengths: RangeInclusive<usize>, count: usize) -> Vec<String> {
    // Lcg64Xsh32 is a small, fast PRNG.
    let mut rng1 = Lcg64Xsh32::seed_from_u64(2021);
    let mut rng2 = Lcg64Xsh32::seed_from_u64(rand::Rng::gen(&mut rng1));
    let alpha_dist = Alphanumeric;
    let len_dist = Uniform::from(lengths);
    len_dist
        .sample_iter(&mut rng1)
        .take(count)
        .map(|len| {
            (&alpha_dist)
                .sample_iter(&mut rng2)
                .take(len)
                .map(char::from)
                .collect::<String>()
        })
        .collect()
}

#[test]
fn tiny_sizes() {
    assert_eq!(4, size_of::<TinyStr4>());
    assert_eq!(8, size_of::<TinyStr8>());
    assert_eq!(16, size_of::<TinyStr16>());
    assert_eq!(24, size_of::<String>());
    // Note: TinyStrAuto is size 32 even when a smaller TinyStr type is used
    assert_eq!(32, size_of::<TinyStrAuto>());
}

#[test]
fn tiny4_basic() {
    let s: TinyStr4 = TinyStr4::from_str("abc").unwrap();
    assert_eq!(s.as_str(), "abc");
}

#[test]
fn tiny4_from_bytes() {
    let s = TinyStr4::from_bytes(b"abc").unwrap();
    assert_eq!(s.as_str(), "abc");

    assert_eq!(
        TinyStr4::from_bytes(&[0, 159, 146, 150]),
        Err(Error::NonAscii)
    );
    assert_eq!(TinyStr4::from_bytes(&[]), Err(Error::InvalidSize));
    assert_eq!(TinyStr4::from_bytes(&[0]), Err(Error::InvalidNull));
}

#[test]
fn tiny4_size() {
    assert_eq!(TinyStr4::from_str(""), Err(Error::InvalidSize));
    assert!(TinyStr4::from_str("1").is_ok());
    assert!(TinyStr4::from_str("12").is_ok());
    assert!(TinyStr4::from_str("123").is_ok());
    assert!(TinyStr4::from_str("1234").is_ok());
    assert_eq!(
        TinyStr4::from_str("12345"),
        Err(Error::InvalidSize)
    );
    assert_eq!(
        TinyStr4::from_str("123456789"),
        Err(Error::InvalidSize)
    );
}

#[test]
fn tiny4_null() {
    assert_eq!(
        TinyStr4::from_str("a\u{0}b"),
        Err(Error::InvalidNull)
    );
}

#[test]
fn tiny4_new_unchecked() {
    let reference: TinyStr4 = TinyStr4::from_bytes(b"en").unwrap();
    let uval: u32 = reference.as_unsigned();
    let s = TinyStr4::new_unchecked(uval);
    assert_eq!(s, reference);
    assert_eq!(s.as_str(), "en");
}

#[test]
fn tiny4_nonascii() {
    assert_eq!(
        TinyStr4::from_str("\u{4000}"),
        Err(Error::NonAscii)
    );
}

#[test]
fn tiny4_alpha() {
    let s: TinyStr4 = TinyStr4::from_str("@aZ[").unwrap();
    assert!(!s.is_ascii_alphabetic());
    assert!(!s.is_ascii_alphanumeric());
    assert_eq!(s.to_ascii_uppercase().as_str(), "@AZ[");
    assert_eq!(s.to_ascii_lowercase().as_str(), "@az[");

    assert!(TinyStr4::from_str("abYZ")
        .unwrap()
        .is_ascii_alphabetic());
    assert!(TinyStr4::from_str("abYZ")
        .unwrap()
        .is_ascii_alphanumeric());
    assert!(TinyStr4::from_str("a123")
        .unwrap()
        .is_ascii_alphanumeric());
    assert!(!TinyStr4::from_str("a123")
        .unwrap()
        .is_ascii_alphabetic());
}

#[test]
fn tiny4_numeric() {
    let s: TinyStr4 = TinyStr4::from_str("@aZ[").unwrap();
    assert!(!s.is_ascii_numeric());

    assert!(TinyStr4::from_str("0123")
        .unwrap()
        .is_ascii_numeric());
}

#[test]
fn tiny4_titlecase() {
    assert_eq!(
        TinyStr4::from_str("abcd")
            .unwrap()
            .to_ascii_titlecase()
            .as_str(),
        "Abcd"
    );
    assert_eq!(
        TinyStr4::from_str("ABCD")
            .unwrap()
            .to_ascii_titlecase()
            .as_str(),
        "Abcd"
    );
    assert_eq!(
        TinyStr4::from_str("aBCD")
            .unwrap()
            .to_ascii_titlecase()
            .as_str(),
        "Abcd"
    );
    assert_eq!(
        TinyStr4::from_str("A123")
            .unwrap()
            .to_ascii_titlecase()
            .as_str(),
        "A123"
    );
    assert_eq!(
        TinyStr4::from_str("123a")
            .unwrap()
            .to_ascii_titlecase()
            .as_str(),
        "123a"
    );
}

#[test]
fn tiny4_ord() {
    let mut v: Vec<TinyStr4> = vec![
        TinyStr4::from_bytes(b"zh").unwrap(),
        TinyStr4::from_bytes(b"aab").unwrap(),
        TinyStr4::from_bytes(b"zzy").unwrap(),
        TinyStr4::from_bytes(b"fr").unwrap(),
    ];
    v.sort_by(|a, b| a.partial_cmp(b).unwrap());
    assert_eq!(Some(String::from("aab")), v.get(0).map(TinyStr4::as_str));
    assert_eq!(Some(String::from("fr")), v.get(1).map(TinyStr4::as_str));
    assert_eq!(Some(String::from("zh")), v.get(2).map(TinyStr4::as_str));
    assert_eq!(Some(String::from("zzy")), v.get(3).map(TinyStr4::as_str));
}

/// Test consistency of TinyStr ordering with String
#[test]
fn tinystr4_ord_consistency() {
    let mut string_vec = random_alphanums(2..=4, 100);
    let mut tinystr_vec: Vec<TinyStr4> = string_vec
        .iter()
        .map(|s| TinyStr4::from_bytes(s.as_bytes()).unwrap())
        .collect();
    string_vec.sort();
    tinystr_vec.sort_by(|a, b| a.partial_cmp(b).unwrap());
    assert_eq!(
        string_vec,
        tinystr_vec
            .iter()
            .map(|s| s.as_str())
            .collect::<Vec<String>>()
    );
}

#[test]
fn tiny4_eq() {
    let s1: TinyStr4 = TinyStr4::from_bytes(b"en").unwrap();
    let s2: TinyStr4 = TinyStr4::from_bytes(b"fr").unwrap();
    let s3: TinyStr4 = TinyStr4::from_bytes(b"en").unwrap();

    assert_eq!(s1, s3);
    assert_ne!(s1, s2);
}

#[test]
fn tiny4_display() {
    let s: TinyStr4 = TinyStr4::from_bytes(b"abcd").unwrap();
    let result = s.as_str();
    assert_eq!(result, "abcd");
    assert_eq!(format!("{}", s.as_str()), "abcd");
    assert_eq!(format!("{:>8}", s.as_str()), format!("{:>8}", result));
}

#[test]
fn tiny4_debug() {
    let s: TinyStr4 = TinyStr4::from_bytes(b"abcd").unwrap();
    assert_eq!(format!("{:#?}", s.as_str()), "\"abcd\"");
}

#[test]
fn tiny8_basic() {
    let s: TinyStr8 = TinyStr8::from_str("abcde").unwrap();
    assert_eq!(s.as_str(), "abcde");
}

#[test]
fn tiny8_from_bytes() {
    let s = TinyStr8::from_bytes(b"abcde").unwrap();
    assert_eq!(s.as_str(), "abcde");

    assert_eq!(
        TinyStr8::from_bytes(&[0, 159, 146, 150]),
        Err(Error::NonAscii)
    );
    assert_eq!(TinyStr8::from_bytes(&[]), Err(Error::InvalidSize));
    assert_eq!(TinyStr8::from_bytes(&[0]), Err(Error::InvalidNull));
}

#[test]
fn tiny8_size() {
    assert_eq!(TinyStr8::from_str(""), Err(Error::InvalidSize));
    assert!(TinyStr8::from_str("1").is_ok());
    assert!(TinyStr8::from_str("12").is_ok());
    assert!(TinyStr8::from_str("123").is_ok());
    assert!(TinyStr8::from_str("1234").is_ok());
    assert!(TinyStr8::from_str("12345").is_ok());
    assert!(TinyStr8::from_str("123456").is_ok());
    assert!(TinyStr8::from_str("1234567").is_ok());
    assert!(TinyStr8::from_str("12345678").is_ok());
    assert_eq!(
        TinyStr8::from_str("123456789"),
        Err(Error::InvalidSize)
    );
}

#[test]
fn tiny8_null() {
    assert_eq!(
        TinyStr8::from_str("a\u{0}b"),
        Err(Error::InvalidNull)
    );
}

#[test]
fn tiny8_new_unchecked() {
    let reference: TinyStr8 = TinyStr8::from_bytes(b"Windows").unwrap();
    let uval: u64 = reference.as_unsigned();
    let s = TinyStr8::new_unchecked(uval);
    assert_eq!(s, reference);
    assert_eq!(s.as_str(), "Windows");
}

#[test]
fn tiny8_nonascii() {
    assert_eq!(
        TinyStr8::from_str("\u{4000}"),
        Err(Error::NonAscii)
    );
}

#[test]
fn tiny8_alpha() {
    let s: TinyStr8 = TinyStr8::from_str("@abcXYZ[").unwrap();
    assert!(!s.is_ascii_alphabetic());
    assert!(!s.is_ascii_alphanumeric());
    assert_eq!(s.to_ascii_uppercase().as_str(), "@ABCXYZ[");
    assert_eq!(s.to_ascii_lowercase().as_str(), "@abcxyz[");

    assert!(TinyStr8::from_str("abcXYZ")
        .unwrap()
        .is_ascii_alphabetic());
    assert!(TinyStr8::from_str("abcXYZ")
        .unwrap()
        .is_ascii_alphanumeric());
    assert!(!TinyStr8::from_str("abc123")
        .unwrap()
        .is_ascii_alphabetic());
    assert!(TinyStr8::from_str("abc123")
        .unwrap()
        .is_ascii_alphanumeric());
}

#[test]
fn tiny8_numeric() {
    let s: TinyStr8 = TinyStr8::from_str("@abcXYZ[").unwrap();
    assert!(!s.is_ascii_numeric());

    assert!(TinyStr8::from_str("01234567")
        .unwrap()
        .is_ascii_numeric());
}

#[test]
fn tiny8_titlecase() {
    assert_eq!(
        TinyStr8::from_str("abcdabcd")
            .unwrap()
            .to_ascii_titlecase()
            .as_str(),
        "Abcdabcd"
    );
    assert_eq!(
        TinyStr8::from_str("ABCDABCD")
            .unwrap()
            .to_ascii_titlecase()
            .as_str(),
        "Abcdabcd"
    );
    assert_eq!(
        TinyStr8::from_str("aBCDaBCD")
            .unwrap()
            .to_ascii_titlecase()
            .as_str(),
        "Abcdabcd"
    );
    assert_eq!(
        TinyStr8::from_str("A123a123")
            .unwrap()
            .to_ascii_titlecase()
            .as_str(),
        "A123a123"
    );
    assert_eq!(
        TinyStr8::from_str("123a123A")
            .unwrap()
            .to_ascii_titlecase()
            .as_str(),
        "123a123a"
    );
}

#[test]
fn tiny8_ord() {
    let mut v: Vec<TinyStr8> = vec![
        TinyStr8::from_bytes(b"nedis").unwrap(),
        TinyStr8::from_bytes(b"macos").unwrap(),
        TinyStr8::from_bytes(b"zzy").unwrap(),
        TinyStr8::from_bytes(b"aab").unwrap(),
    ];
    v.sort_by(|a, b| a.partial_cmp(b).unwrap());
    assert_eq!(Some(String::from("aab")), v.get(0).map(TinyStr8::as_str));
    assert_eq!(Some(String::from("macos")), v.get(1).map(TinyStr8::as_str));
    assert_eq!(Some(String::from("nedis")), v.get(2).map(TinyStr8::as_str));
    assert_eq!(Some(String::from("zzy")), v.get(3).map(TinyStr8::as_str));
}

/// Test consistency of TinyStr ordering with String
#[test]
fn tinystr8_ord_consistency() {
    let mut string_vec = random_alphanums(3..=8, 100);
    let mut tinystr_vec: Vec<TinyStr8> = string_vec
        .iter()
        .map(|s| TinyStr8::from_bytes(s.as_bytes()).unwrap())
        .collect();
    string_vec.sort();
    tinystr_vec.sort_by(|a, b| a.partial_cmp(b).unwrap());
    assert_eq!(
        string_vec,
        tinystr_vec
            .iter()
            .map(|s| s.as_str())
            .collect::<Vec<String>>()
    );
}

#[test]
fn tiny8_eq() {
    let s1: TinyStr8 = TinyStr8::from_bytes(b"windows").unwrap();
    let s2: TinyStr8 = TinyStr8::from_bytes(b"mac").unwrap();
    let s3: TinyStr8 = TinyStr8::from_bytes(b"windows").unwrap();

    assert_eq!(s1, s3);
    assert_ne!(s1, s2);
}

#[test]
fn tiny8_display() {
    let s: TinyStr8 = TinyStr8::from_bytes(b"abcdef").unwrap();
    let result = s.as_str();
    assert_eq!(result, "abcdef");
    assert_eq!(format!("{}", s.as_str()), "abcdef");
    assert_eq!(format!("{:>8}", s.as_str()), format!("{:>8}", result));
}

#[test]
fn tiny8_debug() {
    let s: TinyStr8 = TinyStr8::from_bytes(b"abcdef").unwrap();
    assert_eq!(format!("{:#?}", s.as_str()), "\"abcdef\"");
}

#[test]
fn tiny16_from_bytes() {
    let s = TinyStr16::from_bytes(b"abcdefghijk").unwrap();
    assert_eq!(s.as_str(), "abcdefghijk");

    assert_eq!(
        TinyStr16::from_bytes(&[0, 159, 146, 150]),
        Err(Error::NonAscii)
    );
    assert_eq!(TinyStr16::from_bytes(&[]), Err(Error::InvalidSize));
    assert_eq!(TinyStr16::from_bytes(&[0]), Err(Error::InvalidNull));
}

#[test]
fn tiny16_size() {
    assert_eq!(
        TinyStr16::from_str(""),
        Err(Error::InvalidSize)
    );
    assert!(TinyStr16::from_str("1").is_ok());
    assert!(TinyStr16::from_str("12").is_ok());
    assert!(TinyStr16::from_str("123").is_ok());
    assert!(TinyStr16::from_str("1234").is_ok());
    assert!(TinyStr16::from_str("12345").is_ok());
    assert!(TinyStr16::from_str("123456").is_ok());
    assert!(TinyStr16::from_str("1234567").is_ok());
    assert!(TinyStr16::from_str("12345678").is_ok());
    assert!(TinyStr16::from_str("123456781").is_ok());
    assert!(TinyStr16::from_str("1234567812").is_ok());
    assert!(TinyStr16::from_str("12345678123").is_ok());
    assert!(TinyStr16::from_str("123456781234").is_ok());
    assert!(TinyStr16::from_str("1234567812345").is_ok());
    assert!(TinyStr16::from_str("12345678123456").is_ok());
    assert!(TinyStr16::from_str("123456781234567").is_ok());
    assert!(TinyStr16::from_str("1234567812345678").is_ok());
    assert_eq!(
        TinyStr16::from_str("12345678123456789"),
        Err(Error::InvalidSize)
    );
}

#[test]
fn tiny16_null() {
    assert_eq!(
        TinyStr16::from_str("a\u{0}b"),
        Err(Error::InvalidNull)
    );
}

#[test]
fn tiny16_new_unchecked() {
    let reference: TinyStr16 = TinyStr16::from_bytes(b"WindowsCE/ME/NT").unwrap();
    let uval: u128 = reference.as_unsigned();
    let s = TinyStr16::new_unchecked(uval);
    assert_eq!(s, reference);
    assert_eq!(s.as_str(), "WindowsCE/ME/NT");
}

#[test]
fn tiny16_nonascii() {
    assert_eq!(
        TinyStr16::from_str("\u{4000}"),
        Err(Error::NonAscii)
    );
}

#[test]
fn tiny16_alpha() {
    let s: TinyStr16 = TinyStr16::from_str("@abcdefgTUVWXYZ[").unwrap();
    assert!(!s.is_ascii_alphabetic());
    assert!(!s.is_ascii_alphanumeric());
    assert_eq!(s.to_ascii_uppercase().as_str(), "@ABCDEFGTUVWXYZ[");
    assert_eq!(s.to_ascii_lowercase().as_str(), "@abcdefgtuvwxyz[");

    assert!(TinyStr16::from_str("abcdefgTUVWXYZ")
        .unwrap()
        .is_ascii_alphabetic());
    assert!(TinyStr16::from_str("abcdefgTUVWXYZ")
        .unwrap()
        .is_ascii_alphanumeric());
    assert!(!TinyStr16::from_str("abcdefg0123456")
        .unwrap()
        .is_ascii_alphabetic());
    assert!(TinyStr16::from_str("abcdefgTUVWXYZ")
        .unwrap()
        .is_ascii_alphanumeric());
}

#[test]
fn tiny16_numeric() {
    let s: TinyStr16 = TinyStr16::from_str("@abcdefgTUVWXYZ[").unwrap();
    assert!(!s.is_ascii_numeric());

    assert!(TinyStr16::from_str("0123456789")
        .unwrap()
        .is_ascii_numeric());
}

#[test]
fn tiny16_titlecase() {
    assert_eq!(
        TinyStr16::from_str("abcdabcdabcdabcd")
            .unwrap()
            .to_ascii_titlecase()
            .as_str(),
        "Abcdabcdabcdabcd"
    );
    assert_eq!(
        TinyStr16::from_str("ABCDABCDABCDABCD")
            .unwrap()
            .to_ascii_titlecase()
            .as_str(),
        "Abcdabcdabcdabcd"
    );
    assert_eq!(
        TinyStr16::from_str("aBCDaBCDaBCDaBCD")
            .unwrap()
            .to_ascii_titlecase()
            .as_str(),
        "Abcdabcdabcdabcd"
    );
    assert_eq!(
        TinyStr16::from_str("A123a123A123a123")
            .unwrap()
            .to_ascii_titlecase()
            .as_str(),
        "A123a123a123a123"
    );
    assert_eq!(
        TinyStr16::from_str("123a123A123a123A")
            .unwrap()
            .to_ascii_titlecase()
            .as_str(),
        "123a123a123a123a"
    );
}

#[test]
fn tiny16_ord() {
    let mut v: Vec<TinyStr16> = vec![
        TinyStr16::from_bytes(b"nedis_xxxx").unwrap(),
        TinyStr16::from_bytes(b"macos_xxxx").unwrap(),
        TinyStr16::from_bytes(b"xxxxxxxx_b").unwrap(),
        TinyStr16::from_bytes(b"xxxxxxxx_aa").unwrap(),
        TinyStr16::from_bytes(b"zzy").unwrap(),
        TinyStr16::from_bytes(b"aab").unwrap(),
    ];
    v.sort_by(|a, b| a.partial_cmp(b).unwrap());
    assert_eq!(Some(String::from("aab")), v.get(0).map(TinyStr16::as_str));
    assert_eq!(
        Some(String::from("macos_xxxx")),
        v.get(1).map(TinyStr16::as_str)
    );
    assert_eq!(
        Some(String::from("nedis_xxxx")),
        v.get(2).map(TinyStr16::as_str)
    );
    assert_eq!(
        Some(String::from("xxxxxxxx_aa")),
        v.get(3).map(TinyStr16::as_str)
    );
    assert_eq!(
        Some(String::from("xxxxxxxx_b")),
        v.get(4).map(TinyStr16::as_str)
    );
    assert_eq!(Some(String::from("zzy")), v.get(5).map(TinyStr16::as_str));
}

/// Test consistency of TinyStr ordering with String
#[test]
fn tinystr16_ord_consistency() {
    let mut string_vec = random_alphanums(1..=16, 100);
    let mut tinystr_vec: Vec<TinyStr16> = string_vec
        .iter()
        .map(|s| TinyStr16::from_bytes(s.as_bytes()).unwrap())
        .collect();
    string_vec.sort();
    tinystr_vec.sort_by(|a, b| a.partial_cmp(b).unwrap());
    assert_eq!(
        string_vec,
        tinystr_vec
            .iter()
            .map(|s| s.as_str())
            .collect::<Vec<String>>()
    );
}

#[test]
fn tiny16_eq() {
    let s1: TinyStr16 = TinyStr16::from_bytes(b"windows98SE").unwrap();
    let s2: TinyStr16 = TinyStr16::from_bytes(b"mac").unwrap();
    let s3: TinyStr16 = TinyStr16::from_bytes(b"windows98SE").unwrap();

    assert_eq!(s1, s3);
    assert_ne!(s1, s2);
}

#[test]
fn tiny16_display() {
    let s: TinyStr16 = TinyStr16::from_bytes(b"abcdefghijkl").unwrap();
    let result = s.as_str();
    assert_eq!(result, "abcdefghijkl");
    assert_eq!(format!("{}", s.as_str()), "abcdefghijkl");
    assert_eq!(format!("{:>14}", s.as_str()), format!("{:>14}", result));
}

#[test]
fn tiny16_debug() {
    let s: TinyStr16 = TinyStr16::from_bytes(b"abcdefghijkl").unwrap();
    assert_eq!(format!("{:#?}", s.as_str()), "\"abcdefghijkl\"");
}

#[test]
fn tinyauto_basic() {
    let s1: TinyStrAuto = TinyStrAuto::from_str("abc").unwrap();
    assert_eq!(s1.as_str(), "abc");

    let s2: TinyStrAuto = TinyStrAuto::from_str("veryveryveryveryverylong").unwrap();
    assert_eq!(s2.as_str(), "veryveryveryveryverylong");
}

#[test]
fn tinyauto_nonascii() {
    assert_eq!(TinyStrAuto::from_str("\u{4000}"), Err(Error::NonAscii));
    assert_eq!(
        TinyStrAuto::from_str("veryveryveryveryverylong\u{4000}"),
        Err(Error::NonAscii)
    );
}

#[test]
fn tinystr_macros() {
    let ts: TinyStr8 = TinyStr8::new_unchecked(0x74736574);
    let x: TinyStr8 = TinyStr8::from_bytes(b"test").unwrap();
    assert_eq!(ts, x);

    let x: TinyStr4 = TinyStr4::from_bytes(b"foo").unwrap();
    assert_eq!(TinyStr4::new_unchecked(0x6f6f66), x);

    let x: TinyStr8 = TinyStr8::from_bytes(b"barbaz").unwrap();
    assert_eq!(TinyStr8::new_unchecked(0x7a6162726162), x);

    let x: TinyStr16 = TinyStr16::from_bytes(b"metamorphosis").unwrap();
    assert_eq!(TinyStr16::new_unchecked(0x7369736f6870726f6d6174656d), x);
}

#[test]
fn test_tinystr4() {
    let x1: TinyStr4 = TinyStr4::new_unchecked(0x6f6f66);
    let x2: TinyStr4 = TinyStr4::from_bytes(b"foo").unwrap();
    assert_eq!(x1, x2);
}

#[test]
fn test_tinystr8() {
    let x1: TinyStr8 = TinyStr8::new_unchecked(0x7a6162726162);
    let x2: TinyStr8 = TinyStr8::from_bytes(b"barbaz").unwrap();
    assert_eq!(x1, x2);
}

#[test]
fn test_tinystr16() {
    let x1: TinyStr16 = TinyStr16::new_unchecked(0x7369736f6870726f6d6174656d);
    let x2: TinyStr16 = TinyStr16::from_bytes(b"metamorphosis").unwrap();
    assert_eq!(x1, x2);
}
