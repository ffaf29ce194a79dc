use dns_name::name::Name;

#[test]
fn labels_of_relative_name() {
    let n = Name::from_text("google.com").unwrap();
    assert!(!n.is_absolute());
    let ls = n.labels();
    assert_eq!(ls.len(), 2);
    assert_eq!(ls[0].to_text(), "google");
    assert_eq!(ls[1].to_text(), "com");
}

#[test]
fn labels_of_absolute_name() {
    let n = Name::from_text("google.com.").unwrap();
    assert!(n.is_absolute());
    let ls = n.labels();
    assert_eq!(ls.len(), 3);
    assert_eq!(ls[0].to_text(), "google");
    assert_eq!(ls[1].to_text(), "com");
    assert_eq!(ls[2].to_text(), "");
}

#[test]
fn label_equality_and_order() {
    let n = Name::from_text("a.b.a").unwrap();
    let ls = n.labels();
    assert!(ls[0] == ls[2]);
    assert!(ls[0] != ls[1]);
    assert!(ls[0] < ls[1]);
}

#[test]
fn name_equality_is_byte_wise() {
    let a = Name::from_text("google.com").unwrap();
    let b = Name::from_text("google.com").unwrap();
    let c = Name::from_text("google.com.").unwrap();
    assert!(a == b);
    assert!(a != c);
}

#[test]
fn name_order_is_lexicographic() {
    let a = Name::from_bytes_ascii(b"a").unwrap();
    let ab = Name::from_bytes_ascii(b"ab").unwrap();
    let b = Name::from_bytes_ascii(b"b").unwrap();
    assert!(a < ab);
    assert!(ab < b);
    assert!(a < b);
    assert!(!(b < a));
}

#[test]
fn root_constant() {
    let r = Name::root();
    assert_eq!(r.as_bytes(), b".".as_slice());
    assert!(r.is_absolute());
    let ls = r.labels();
    assert_eq!(ls.len(), 2);
    assert_eq!(ls[0].to_text(), "");
    assert_eq!(ls[1].to_text(), "");
}

#[test]
fn empty_constant() {
    let e = Name::empty();
    assert_eq!(e.as_bytes(), b"".as_slice());
    assert!(!e.is_absolute());
    let ls = e.labels();
    assert_eq!(ls.len(), 1);
    assert_eq!(ls[0].to_text(), "");
}

#[test]
fn raw_path_wraps_bytes_unchanged() {
    let n = Name::from_bytes_raw(b"blog.bbc.co.uk").unwrap();
    assert_eq!(n.as_bytes(), b"blog.bbc.co.uk".as_slice());
    assert_eq!(n.labels().len(), 4);
}
