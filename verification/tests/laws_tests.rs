use qstr::BStr7;
use qstr::BStr15;
use qstr::FStr8;
use qstr::FStr24;
use qstr::ExceedsCapacity;
use qstr::StrVec28;
use qstr::StrVec56;

#[test]
fn test_bounded_round_trip() {
    let b = BStr15::try_from("hello").unwrap();
    assert_eq!(b.as_str(), "hello");
    assert_eq!(b.len(), 5);

    let empty = BStr15::try_from("").unwrap();
    assert_eq!(empty.as_str(), "");
    assert!(empty.is_empty());
}

#[test]
fn test_fixed_round_trip() {
    let f = FStr8::try_from("abc").unwrap();
    assert_eq!(f.as_str_trimmed(), "abc");
    assert_eq!(f.to_string_trimmed(), "abc");

    // a NUL inside the text is where the trimmed reading stops
    let g = FStr8::try_from("a\0b").unwrap();
    assert_eq!(g.as_str_trimmed(), "a");
}

#[test]
fn test_bounded_capacity_boundary() {
    // exactly at the capacity: succeeds
    let full = BStr7::try_from("1234567").unwrap();
    assert_eq!(full.as_str(), "1234567");

    // one byte over: fails with the documented error values
    assert_eq!(
        BStr7::try_from("12345678"),
        Err(ExceedsCapacity {
            length: 8,
            capacity: 7
        })
    );
}

#[test]
fn test_fixed_capacity_boundary() {
    let full = FStr8::try_from("12345678").unwrap();
    assert_eq!(full.as_str(), "12345678");

    let e = FStr8::try_from("123456789").unwrap_err();
    assert_eq!(
        e,
        ExceedsCapacity {
            length: 9,
            capacity: 8
        }
    );
    assert_eq!(e.message(), "String length (9) exceeds capacity (8)");
}

#[test]
fn test_push_multibyte_char() {
    let mut s = BStr7::new();
    s.push('\u{e9}').unwrap();
    assert_eq!(s.len(), 2);
    assert_eq!(s.as_str(), "\u{e9}");

    let mut t = BStr7::new();
    t.push_str("123456").unwrap();
    assert_eq!(
        t.push('\u{e9}'),
        Err(ExceedsCapacity {
            length: 8,
            capacity: 7
        })
    );
    assert_eq!(t.as_str(), "123456");
}

#[test]
fn test_empty_nul_ambiguity() {
    let mut a = StrVec28::new();
    let mut b = StrVec28::new();

    a.push("").unwrap();
    b.push("\0").unwrap();

    assert_eq!(a.bitmap(), b.bitmap());
    assert_eq!(a.data(), b.data());
    assert_eq!(a, b);
    assert_eq!(a.get(0), Some(""));
    assert_eq!(b.get(0), Some(""));
    assert_eq!(a.to_vec(), b.to_vec());
}

#[test]
fn test_vector_scenario() {
    let mut v = StrVec28::new();
    v.push("ab").unwrap();
    v.push("cdefg").unwrap();

    assert_eq!(v.get(0), Some("ab"));
    assert_eq!(v.get(1), Some("cdefg"));
    assert_eq!(v.len(), 2);
    assert_eq!(v.get(2), None);
}

#[test]
fn test_clear() {
    let mut v = StrVec28::new();
    v.push("ab").unwrap();
    v.push("cd").unwrap();
    v.clear();

    assert_eq!(v.len(), 0);
    assert!(v.is_empty());
    assert_eq!(v.get(0), None);
    assert_eq!(v, StrVec28::new());
}

#[test]
fn test_from_owned() {
    let v = StrVec56::try_from_owned(vec![String::from("one"), String::from("two")]).unwrap();
    assert_eq!(v.to_vec(), vec!["one", "two"]);

    let w = StrVec56::from_owned(vec![String::from("three")]);
    assert_eq!(w.get(0), Some("three"));
}

#[test]
fn test_from_slice() {
    let v = StrVec28::from(&["a", "b", "c"]);
    assert_eq!(v.to_vec(), vec!["a", "b", "c"]);

    let overflow: Vec<&str> = (0..29).map(|_| "x").collect();
    let e = StrVec28::try_from(&overflow).unwrap_err();
    assert_eq!(
        e,
        ExceedsCapacity {
            length: 29,
            capacity: 28
        }
    );
}

#[test]
fn test_split_segments_with_multibyte() {
    let b = BStr15::try_from("a\u{e9}:b").unwrap();
    let split: qstr::StrVec<u16, 15, qstr::Align16> = b.split(":");
    assert_eq!(split.to_vec(), vec!["a\u{e9}", "b"]);
}

#[test]
fn test_message_formatting() {
    let e = ExceedsCapacity {
        length: 105,
        capacity: 0,
    };
    assert_eq!(e.message(), "String length (105) exceeds capacity (0)");
}

#[test]
fn test_fixed_as_bytes() {
    let f = FStr8::try_from("ab").unwrap();
    assert_eq!(f.as_bytes(), b"ab\0\0\0\0\0\0");
}

#[test]
fn test_default_values() {
    assert_eq!(BStr15::default(), BStr15::new());
    assert_eq!(FStr24::default(), FStr24::new());
    assert_eq!(StrVec28::default(), StrVec28::new());
}
