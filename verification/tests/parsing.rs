use std::str::FromStr;

use dns_name::name::{Name, NameParseError};

#[test]
fn valid_cases_relative() {
    assert!(Name::from_str("google.com").is_ok());
    assert!(Name::from_str("www.google.com").is_ok());
    assert!(Name::from_str("internal.www.facebook.com").is_ok());
    assert!(Name::from_str("blog.bbc.co.uk").is_ok());
    assert!(Name::from_str("annauniversity.au").is_ok());
}

#[test]
fn valid_cases_absolute() {
    assert!(Name::from_str("google.com.").is_ok());
    assert!(Name::from_str("www.google.com.").is_ok());
    assert!(Name::from_str("internal.www.facebook.com.").is_ok());
    assert!(Name::from_str("blog.bbc.co.uk.").is_ok());
    assert!(Name::from_str("annauniversity.au.").is_ok());
}

#[test]
fn valid_cases_max_limit() {
    // Max label size allowed
    assert!(Name::from_str(
        std::iter::repeat("x").take(63).collect::<String>().as_str()).is_ok());

    // Max domain size allowed
    assert!(Name::from_str(
        std::iter::repeat("x.").take(127).collect::<String>().as_str()).is_ok());
}

#[test]
fn invalid_cases_emptylabels() {
    assert!(match Name::from_str("..google.com") {
        Err(NameParseError::EmptyLabel(pos)) => pos == 0,
        _ => false
    });

    assert!(match Name::from_str(".google.com") {
        Err(NameParseError::EmptyLabel(pos)) => pos == 0,
        _ => false
    });

    assert!(match Name::from_str("www..google.com") {
        Err(NameParseError::EmptyLabel(pos)) => pos == 1,
        _ => false
    });
}

#[test]
fn invalid_cases_near_max_limit() {
    // just above 63 character max limit for a label
    let long_label = std::iter::repeat("x").take(64).collect::<String>();
    assert!(match Name::from_str(format!("{}.com", long_label).as_str()) {
        Err(NameParseError::LabelTooLong(error_label)) => error_label == long_label,
        _ => false
    });

    // just above 255 character max limit for domain name
    let long_domain = std::iter::repeat("x.").take(128).collect::<String>();
    assert!(match Name::from_str(long_domain.as_str()) {
        Err(NameParseError::NameTooLarge(error_name)) => error_name == long_domain,
        _ => false
    });
}

#[test]
fn not_allowed_unicode_characters() {
    assert!(match Name::from_str("secure\u{2488}wellsfargo.com") {
        Err(NameParseError::IDNAError(_errors)) => true,
        Err(e) => {
            println!("{:?}", e);
            false
        }
        Ok(v) => {
            println!("{:?}", v);
            false
        }
    });
}

#[test]
fn allowed_unicode_characters() {
    assert!(Name::from_str("தமிழ்.wellsfargo.com").is_ok());
}

#[test]
fn name_too_large_carries_original_text() {
    // The codec lowercases the input, but the over-length error still
    // carries the text exactly as given.
    let long_domain = std::iter::repeat("X.").take(128).collect::<String>();
    assert!(match Name::from_str(long_domain.as_str()) {
        Err(NameParseError::NameTooLarge(t)) => t == long_domain,
        _ => false,
    });
}

#[test]
fn utf8_error_on_invalid_bytes() {
    assert!(match Name::from_bytes(&[0xff, 0xfe, 0x20]) {
        Err(NameParseError::Utf8Error(_)) => true,
        _ => false,
    });
}

#[test]
fn from_bytes_decodes_utf8_then_maps() {
    // Multi-byte UTF-8 input goes through the codec like text input does.
    let n = Name::from_bytes("தமிழ்.com".as_bytes()).unwrap();
    let t = n.to_text();
    assert!(t.starts_with("xn--"));
    assert!(t.ends_with(".com"));
}

#[test]
fn codec_maps_uppercase_ascii_to_lowercase() {
    // The IDNA mapping normalizes case, so the stored byte form differs from
    // the input text.
    let n = Name::from_text("GOOGLE.Com").unwrap();
    assert_eq!(n.to_text(), "google.com");
}

#[test]
fn ascii_paths_skip_the_codec() {
    // The ASCII-trusting paths run only the validation engine, so case is
    // kept exactly as given.
    let n = Name::from_bytes_ascii(b"EXAMPLE.Com").unwrap();
    assert_eq!(n.as_bytes(), b"EXAMPLE.Com".as_slice());
    let m = Name::from_text_ascii("EXAMPLE.Com").unwrap();
    assert_eq!(m.to_text(), "EXAMPLE.Com");
}

#[test]
fn revalidating_own_bytes_gives_equal_name() {
    let n = Name::from_text("www.google.com").unwrap();
    let m = Name::from_bytes(n.as_bytes()).unwrap();
    assert!(m == n);
}

#[test]
fn round_trip_ascii_text() {
    let n = Name::from_text("google.com").unwrap();
    assert_eq!(n.to_text(), "google.com");
    let a = Name::from_text("google.com.").unwrap();
    assert_eq!(a.to_text(), "google.com.");
}

#[test]
fn single_separator_is_the_root() {
    let n = Name::from_text(".").unwrap();
    assert!(n.is_absolute());
    assert_eq!(n.to_text(), ".");
}

#[test]
fn empty_text_is_the_empty_name() {
    let n = Name::from_text("").unwrap();
    assert!(!n.is_absolute());
    assert_eq!(n.to_text(), "");
}
