use core::mem;

use qstr::ExceedsCapacity;
use qstr::FStr8;
use qstr::FStr16;
use qstr::FStr24;
use qstr::FStr32;
use qstr::FStr64;
use qstr::FStr128;

#[test]
fn fixed_str_tests_test_size() {
    assert_eq!(mem::size_of::<FStr8>(), 8);
    assert_eq!(mem::size_of::<FStr16>(), 16);
    assert_eq!(mem::size_of::<FStr24>(), 24);
    assert_eq!(mem::size_of::<FStr32>(), 32);
    assert_eq!(mem::size_of::<FStr64>(), 64);
    assert_eq!(mem::size_of::<FStr128>(), 128);
}

fn f() -> FStr24 {
    FStr24::const_try_from("abc").unwrap()
}

#[test]
fn test_const_try_from_zero_padded() {
    assert_eq!(f(), FStr24::try_from("abc").unwrap());
}

#[test]
fn test_as_str_zero_padded() {
    let str = FStr24::const_try_from("abc").unwrap();
    assert_eq!(str.as_str().len(), 24);
    assert_eq!(str.as_str_trimmed().len(), 3);
}

fn g() -> FStr24 {
    FStr24::const_try_from("aaaaaaaaaaaaaaaaaaaaaaaa").unwrap()
}

#[test]
fn test_within_capacity() {
    // 24 bytes
    let result = g();
    let result2 = FStr24::try_from("aaaaaaaaaaaaaaaaaaaaaaaa").unwrap();

    assert_eq!(result.as_str(), "aaaaaaaaaaaaaaaaaaaaaaaa");
    assert_eq!(result2.as_str(), "aaaaaaaaaaaaaaaaaaaaaaaa");
    assert_eq!(result, result2);
}

fn h() -> Option<FStr24> {
    FStr24::const_try_from("aaaaaaaaaaaaaaaaaaaaaaaaa")
}

#[test]
fn test_exceed_capacity() {
    // 25 bytes
    let result = h();
    let result2 = FStr24::try_from("aaaaaaaaaaaaaaaaaaaaaaaaa");

    assert_eq!(result, None);

    assert_eq!(
        result2,
        Err(ExceedsCapacity {
            length: 25,
            capacity: 24
        })
    );
}
