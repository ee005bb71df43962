use vstd::prelude::*;

verus! {

use vstd::string::StringSliceAdditionalSpecFns;
use vstd::utf8::valid_utf8;

/// Relies on `Clone` for `core::marker::PhantomData`: cloning the unit
/// marker yields the same (only) value of its type.
pub assume_specification<T: core::marker::PointeeSized>[ <core::marker::PhantomData<T> as Clone>::clone ](
    m: &core::marker::PhantomData<T>,
) -> (r: core::marker::PhantomData<T>)
    ensures
        r == *m,
;

/// Relies on `str::from_utf8`: on valid UTF-8 input it returns `Ok` of a
/// string slice over exactly the given bytes, so the unwrap cannot fail.
#[verifier::external_body]
pub(crate) fn bytes_as_str(v: &[u8]) -> (r: &str)
    requires
        valid_utf8(v@),
    ensures
        r.spec_bytes() == v@,
{
    core::str::from_utf8(v).unwrap()
}

/// Relies on `char::to_string` (through the `Display` impl for `char`): the
/// result is the string holding exactly the one character given.
#[verifier::external_body]
pub(crate) fn char_to_string(c: char) -> (r: String)
    ensures
        r@ == seq![c],
{
    c.to_string()
}

/// A sequence of `n` NUL bytes.
pub open spec fn nul_seq(n: int) -> Seq<u8> {
    Seq::new(if n >= 0 {
        n as nat
    } else {
        0
    }, |i: int| 0u8)
}

/// Index of the first NUL byte of `b`, or `b.len()` if there is none.
pub open spec fn first_nul(b: Seq<u8>) -> int
    decreases b.len(),
{
    if b.len() == 0 {
        0
    } else if b[0] == 0 {
        0
    } else {
        1 + first_nul(b.drop_first())
    }
}

/// `first_nul` points at the first NUL byte: nothing before it is NUL, and it
/// is a NUL byte unless the whole sequence is free of them.
pub proof fn lemma_first_nul(b: Seq<u8>)
    ensures
        0 <= first_nul(b) <= b.len(),
        forall|j: int| 0 <= j < first_nul(b) ==> b[j] != 0,
        first_nul(b) < b.len() ==> b[first_nul(b)] == 0,
    decreases b.len(),
{
    if b.len() > 0 && b[0] != 0 {
        let d = b.drop_first();
        lemma_first_nul(d);
        assert forall|j: int| 0 <= j < first_nul(b) implies b[j] != 0 by {
            if j >= 1 {
                assert(b[j] == d[j - 1]);
            }
        }
        if first_nul(b) < b.len() {
            assert(b[first_nul(b)] == d[first_nul(d)]);
        }
    }
}

/// A sequence of NUL bytes is valid UTF-8: each NUL byte is the one-byte
/// encoding of the NUL character.
pub proof fn lemma_nul_bytes_valid(b: Seq<u8>)
    requires
        forall|i: int| 0 <= i < b.len() ==> b[i] == 0,
    ensures
        valid_utf8(b),
    decreases b.len(),
{
    if b.len() > 0 {
        assert(vstd::utf8::is_leading_byte_width_1(0u8));
        assert(vstd::utf8::codepoint_width_1(0u8) == 0u32) by (bit_vector);
        assert(vstd::utf8::valid_first_scalar(b));
        assert(vstd::utf8::length_of_first_scalar(b) == 1);
        let rest = vstd::utf8::pop_first_scalar(b);
        assert(forall|i: int| 0 <= i < rest.len() ==> rest[i] == 0);
        lemma_nul_bytes_valid(rest);
    }
}

} // verus!
