use vstd::prelude::*;

use crate::bitmap::Bitmap;
use crate::bounded_str::BoundedStr;
use crate::str_vec::StrVec;
use crate::str_vec::stored_items;
use crate::fixed_str::FixedStr;
use crate::str_vec::decoded_item;
use crate::str_vec::stored_item;
use crate::strutil::first_nul;
use crate::strutil::lemma_first_nul;
use crate::strutil::nul_seq;

verus! {

use vstd::string::StringSliceAdditionalSpecFns;
use vstd::utf8::encode_utf8;
use vstd::utf8::decode_utf8;

/// Two texts with the same UTF-8 encoding are the same text.
pub proof fn lemma_encode_injective(a: Seq<char>, b: Seq<char>)
    requires
        encode_utf8(a) == encode_utf8(b),
    ensures
        a == b,
{
    vstd::utf8::encode_utf8_decode_utf8(a);
    vstd::utf8::encode_utf8_decode_utf8(b);
}

/// The NUL character encodes as the single NUL byte.
pub proof fn lemma_encode_nul()
    ensures
        encode_utf8(seq!['\0']) == seq![0u8],
{
    reveal_with_fuel(vstd::utf8::encode_utf8, 2);
    assert(seq!['\0'].drop_first() =~= Seq::<char>::empty());
    assert(vstd::utf8::has_width_1_encoding('\0' as u32));
    assert(vstd::utf8::leading_byte_width_1(0u32) == 0u8) by (bit_vector);
    assert(vstd::utf8::encode_scalar('\0' as u32) =~= seq![0u8]);
    assert(encode_utf8(seq!['\0']) =~= seq![0u8]);
}

/// Round trip for a bounded string: a value built from `s` and read back as
/// text yields `s` exactly.
pub proof fn lemma_bounded_round_trip<const N: usize, A>(s: &str, b: BoundedStr<N, A>, t: &str)
    requires
        b@ == s.spec_bytes(),
        t.spec_bytes() == b@,
    ensures
        t@ == s@,
{
    lemma_encode_injective(t@, s@);
}

/// Round trip for a fixed string: a value built from a NUL-free `s` and read
/// back trimmed yields `s` exactly.
pub proof fn lemma_fixed_round_trip<const N: usize, A>(s: &str, f: FixedStr<N, A>, t: &str)
    requires
        s.spec_bytes().len() <= N,
        forall|i: int| 0 <= i < s.spec_bytes().len() ==> s.spec_bytes()[i] != 0,
        f@ == s.spec_bytes() + nul_seq(N - s.spec_bytes().len()),
        t.spec_bytes() == f@.take(first_nul(f@)),
    ensures
        t@ == s@,
{
    let len = s.spec_bytes().len() as int;
    lemma_first_nul(f@);
    if len < N {
        assert(f@[len] == 0);
    }
    assert(first_nul(f@) <= len);
    if first_nul(f@) < len {
        assert(f@[first_nul(f@)] == s.spec_bytes()[first_nul(f@)]);
        assert(false);
    }
    assert(f@.take(len) =~= s.spec_bytes());
    lemma_encode_injective(t@, s@);
}

/// Reading an item back from a string vector: a pushed string is reproduced
/// exactly, except that the one-character NUL string collapses to the empty
/// string, exactly as a pushed empty string does.
pub proof fn lemma_read_after_push(s: &str, t: &str)
    requires
        t.spec_bytes() == decoded_item(stored_item(s.spec_bytes())),
    ensures
        s@ == seq!['\0'] ==> t@ == Seq::<char>::empty(),
        s@ != seq!['\0'] ==> t@ == s@,
{
    reveal_with_fuel(vstd::utf8::encode_utf8, 2);
    reveal_with_fuel(vstd::utf8::decode_utf8, 2);
    let b = s.spec_bytes();
    if s@ == seq!['\0'] {
        lemma_encode_nul();
        assert(b == seq![0u8]);
        assert(decoded_item(stored_item(b)) =~= Seq::<u8>::empty());
        assert(encode_utf8(t@) =~= encode_utf8(Seq::<char>::empty()));
        lemma_encode_injective(t@, Seq::<char>::empty());
    } else if b.len() == 0 {
        assert(decoded_item(stored_item(b)) =~= Seq::<u8>::empty());
        assert(t.spec_bytes() == b);
        lemma_encode_injective(t@, s@);
    } else {
        // a non-empty encoding other than the NUL singleton is kept exactly
        if b.len() == 1 && b[0] == 0 {
            crate::strutil::lemma_nul_bytes_valid(b);
            vstd::utf8::decode_utf8_encode_utf8(b);
            assert(vstd::utf8::codepoint_width_1(0u8) == 0u32) by (bit_vector);
            assert(vstd::utf8::pop_first_scalar(b) =~= Seq::<u8>::empty());
            assert(decode_utf8(b) =~= seq!['\0']);
            lemma_encode_injective(s@, seq!['\0']);
            assert(false);
        }
        assert(stored_item(b) == b);
        assert(decoded_item(b) == b);
        lemma_encode_injective(t@, s@);
    }
}

/// Reading a vector built from a list of strings: `get(k)` yields exactly
/// the `k`-th pushed string, except that a pushed single NUL character reads
/// back as the empty string; both follow from the push and get contracts.
pub proof fn lemma_vector_round_trip<T: Bitmap, const N: usize, A>(
    vals: Seq<&str>,
    v: StrVec<T, N, A>,
    k: int,
    t: &str,
)
    requires
        v@ == stored_items(vals),
        0 <= k < vals.len(),
        t.spec_bytes() == decoded_item(v@[k]),
    ensures
        vals[k]@ == seq!['\0'] ==> t@ == Seq::<char>::empty(),
        vals[k]@ != seq!['\0'] ==> t@ == vals[k]@,
{
    assert(v@[k] == stored_item(vals[k].spec_bytes()));
    lemma_read_after_push(vals[k], t);
}

/// The documented ambiguity: pushing the empty string and pushing the single
/// NUL character store the same bytes, so every later observation of the
/// vector is identical.
pub proof fn lemma_empty_nul_ambiguity(e: &str, z: &str)
    requires
        e@ == Seq::<char>::empty(),
        z@ == seq!['\0'],
    ensures
        stored_item(e.spec_bytes()) == stored_item(z.spec_bytes()),
{
    lemma_encode_nul();
    assert(e.spec_bytes() =~= Seq::<u8>::empty());
    assert(stored_item(e.spec_bytes()) =~= seq![0u8]);
    assert(stored_item(z.spec_bytes()) =~= seq![0u8]);
}

} // verus!
