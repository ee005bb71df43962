use vstd::prelude::*;

use crate::errors::ExceedsCapacity;
use crate::strutil::bytes_as_str;
use crate::strutil::first_nul;
use crate::strutil::lemma_first_nul;
use crate::strutil::lemma_nul_bytes_valid;
use crate::strutil::nul_seq;

verus! {

use vstd::string::StringSliceAdditionalSpecFns;
use vstd::utf8::valid_utf8;

broadcast use vstd::array::group_array_axioms;

/// Fixed stack-allocated string.
///
/// The buffer always holds exactly `N` bytes; a shorter string is stored
/// left-aligned with the remaining bytes NUL-padded. The whole buffer is the
/// string, NUL bytes included; a trimmed reading stops at the first NUL.
///
/// Its view is the full `N`-byte buffer, always valid UTF-8.
#[derive(Debug, Copy, Clone, PartialEq, Eq, PartialOrd, Ord, Hash)]
pub struct FixedStr<const N: usize, Alignment> {
    data: [u8; N],
    marker: core::marker::PhantomData<Alignment>,
}

impl<const N: usize, Alignment> View for FixedStr<N, Alignment> {
    type V = Seq<u8>;

    closed spec fn view(&self) -> Seq<u8> {
        self.data@
    }
}

impl<const N: usize, Alignment> Default for FixedStr<N, Alignment> {
    /// The all-NUL string.
    fn default() -> (r: Self)
        ensures
            r.wf(),
            r@ == nul_seq(N as int),
    {
        Self::new()
    }
}

impl<const N: usize, Alignment> FixedStr<N, Alignment> {
    /// The internal invariant: the buffer is valid UTF-8.
    pub closed spec fn wf(&self) -> bool {
        valid_utf8(self@)
    }

    /// Creates an all-NUL `FixedStr`.
    pub fn new() -> (r: Self)
        ensures
            r.wf(),
            r@ == nul_seq(N as int),
    {
        let r = FixedStr { data: [0u8; N], marker: core::marker::PhantomData };
        proof {
            assert(r@ =~= nul_seq(N as int));
            lemma_nul_bytes_valid(r@);
        }
        r
    }

    /// Attempts to construct a `FixedStr` from `s`, NUL-padding the unused
    /// tail; fails exactly when the bytes of `s` do not fit.
    pub fn try_from(s: &str) -> (r: Result<Self, ExceedsCapacity>)
        ensures
            match r {
                Ok(f) => {
                    &&& s.spec_bytes().len() <= N
                    &&& f.wf()
                    &&& f@ == s.spec_bytes() + nul_seq(N - s.spec_bytes().len())
                },
                Err(e) => {
                    &&& s.spec_bytes().len() > N
                    &&& e.length == s.spec_bytes().len()
                    &&& e.capacity == N
                },
            },
    {
        let bytes = s.as_bytes();
        let length = bytes.len();
        if length > N {
            return Err(ExceedsCapacity { length, capacity: N });
        }
        let mut data: [u8; N] = [0u8; N];
        let mut i: usize = 0;
        while i < length
            invariant
                i <= length,
                length <= N,
                bytes@ == s.spec_bytes(),
                length == s.spec_bytes().len(),
                data@.len() == N,
                forall|j: int| 0 <= j < i ==> data@[j] == s.spec_bytes()[j],
                forall|j: int| i <= j < N ==> data@[j] == 0,
            decreases length - i,
        {
            data[i] = bytes[i];
            i = i + 1;
        }
        let r = FixedStr { data, marker: core::marker::PhantomData };
        proof {
            assert(r@ =~= s.spec_bytes() + nul_seq(N - s.spec_bytes().len()));
            vstd::utf8::encode_utf8_valid_utf8(s@);
            lemma_nul_bytes_valid(nul_seq(N - s.spec_bytes().len()));
            vstd::utf8::valid_utf8_concat(s.spec_bytes(), nul_seq(N - s.spec_bytes().len()));
        }
        Ok(r)
    }

    /// Constructs a `FixedStr` from a string already known to fit.
    pub fn const_from(s: &str) -> (r: Self)
        requires
            s.spec_bytes().len() <= N,
        ensures
            r.wf(),
            r@ == s.spec_bytes() + nul_seq(N - s.spec_bytes().len()),
    {
        match Self::try_from(s) {
            Ok(f) => f,
            Err(_) => vstd::pervasive::unreached(),
        }
    }

    /// Attempts to construct a `FixedStr`, returning `None` exactly when the
    /// bytes of `s` do not fit.
    pub fn const_try_from(s: &str) -> (r: Option<Self>)
        ensures
            match r {
                Some(f) => {
                    &&& s.spec_bytes().len() <= N
                    &&& f.wf()
                    &&& f@ == s.spec_bytes() + nul_seq(N - s.spec_bytes().len())
                },
                None => s.spec_bytes().len() > N,
            },
    {
        match Self::try_from(s) {
            Ok(f) => Some(f),
            Err(_) => None,
        }
    }

    /// Returns the underlying byte buffer.
    pub fn as_bytes(&self) -> (r: &[u8; N])
        ensures
            r@ == self@,
    {
        &self.data
    }

    /// Returns the full `N`-byte buffer as text, NUL padding included.
    pub fn as_str(&self) -> (r: &str)
        requires
            self.wf(),
        ensures
            r.spec_bytes() == self@,
    {
        let whole = self.data.as_slice();
        bytes_as_str(whole)
    }

    /// Returns the text up to (not including) the first NUL byte, or the
    /// whole buffer if it holds none.
    pub fn as_str_trimmed(&self) -> (r: &str)
        requires
            self.wf(),
        ensures
            r.spec_bytes() == self@.take(first_nul(self@)),
    {
        proof {
            lemma_first_nul(self@);
        }
        let mut i: usize = 0;
        while i < N
            invariant
                i <= N,
                self@.len() == N,
                forall|j: int| 0 <= j < i ==> self@[j] != 0,
            ensures
                i <= N,
                forall|j: int| 0 <= j < i ==> self@[j] != 0,
                i < N ==> self@[i as int] == 0,
            decreases N - i,
        {
            if self.data[i] == 0 {
                break ;
            }
            i = i + 1;
        }
        proof {
            assert(i as int == first_nul(self@));
            if i < N {
                assert(!vstd::utf8::is_continuation_byte(self@[i as int]));
                vstd::utf8::is_char_boundary_iff_not_is_continuation_byte(self@, i as int);
                vstd::utf8::valid_utf8_split(self@, i as int);
            } else {
                assert(self@.subrange(0, i as int) =~= self@);
            }
            assert(self@.take(i as int) =~= self@.subrange(0, i as int));
        }
        let whole = self.data.as_slice();
        let part = &whole[0..i];
        bytes_as_str(part)
    }

    /// Copies the text up to the first NUL byte into an owned `String`.
    pub fn to_string_trimmed(&self) -> (r: String)
        requires
            self.wf(),
        ensures
            vstd::utf8::encode_utf8(r@) == self@.take(first_nul(self@)),
    {
        String::from_str(self.as_str_trimmed())
    }
}

} // verus!
