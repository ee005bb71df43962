use core::mem;

use qstr::BStr7;
use qstr::BStr15;
use qstr::BStr31;
use qstr::BStr63;
use qstr::BStr127;
use qstr::Align8;
use qstr::Align64;
use qstr::ExceedsCapacity;
use qstr::StrVec;

#[test]
fn bounded_str_tests_test_size() {
    assert_eq!(mem::size_of::<BStr7>(), 8);
    assert_eq!(mem::size_of::<BStr15>(), 16);
    assert_eq!(mem::size_of::<BStr31>(), 32);
    assert_eq!(mem::size_of::<BStr63>(), 64);
    assert_eq!(mem::size_of::<BStr127>(), 128);
}

#[test]
fn test_push_str() {
    let mut s = BStr15::new();
    s.push_str("abc").unwrap();
    s.push_str("def").unwrap();

    assert_eq!(s.len(), 6);
    assert_eq!(s.as_str(), "abcdef");
}

#[test]
fn test_push_str_exceeds_capacity() {
    let mut s = BStr7::new();

    assert_eq!(
        s.push_str("00000000"),
        Err(ExceedsCapacity {
            length: 8,
            capacity: 7
        })
    );
}

#[test]
fn test_push() {
    let mut s = BStr15::new();
    s.push('a').unwrap();
    s.push('b').unwrap();
    s.push('c').unwrap();

    assert_eq!(s.len(), 3);
    assert_eq!(s.as_str(), "abc");
}

fn f() -> BStr15 {
    BStr15::const_try_from("abc").unwrap()
}

#[test]
fn test_const_try_from() {
    assert_eq!(f(), BStr15::try_from("abc").unwrap());
}

#[test]
fn test_split() {
    let v = BStr7::try_from("a,b,c,d").unwrap();
    let split: StrVec<u8, 7, Align8> = v.split(",");

    assert_eq!(split.to_vec(), vec!["a", "b", "c", "d"]);
}

#[test]
fn test_split2() {
    let v = BStr7::try_from(",").unwrap();
    assert_eq!(
        v.split(",").to_vec(),
        v.as_str().split(",").collect::<Vec<_>>()
    );
}

#[test]
fn test_split3() {
    let v = BStr63::try_from("us:aws:east:1:worker0000000000000000000000000000000000000000000")
        .unwrap();
    let split: StrVec<u64, 63, Align64> = v.split(":");

    assert_eq!(
        split.to_vec(),
        vec![
            "us",
            "aws",
            "east",
            "1",
            "worker0000000000000000000000000000000000000000000"
        ]
    );
}

#[test]
fn bounded_str_tests_test_push_str_exceeds_capacity() {
    let mut s = BStr7::new();
    let exceeds_capacity = s.push_str("00000000").unwrap_err();

    assert_eq!(
        exceeds_capacity,
        ExceedsCapacity {
            length: 8,
            capacity: 7
        }
    );

    assert_eq!(
        exceeds_capacity.message(),
        "String length (8) exceeds capacity (7)"
    );
}
