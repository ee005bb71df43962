use vstd::prelude::*;

use crate::alignment_resolver::AlignmentForLength;
use crate::alignment_resolver::AlignmentMarker;
use crate::alignment_resolver::AlignmentType;
use crate::bitmap_resolver::BitmapForLength;
use crate::bitmap_resolver::BitmapMarker;
use crate::bitmap_resolver::BitmapType;
use crate::errors::ExceedsCapacity;
use crate::str_vec::StrVec;
use crate::str_vec::stored_item;
use crate::str_vec::total_len;
use crate::str_vec::lemma_total_len_prefix_monotone;
use crate::strutil::bytes_as_str;
use crate::strutil::char_to_string;

verus! {

use vstd::string::StringSliceAdditionalSpecFns;
use vstd::utf8::valid_utf8;
use vstd::utf8::encode_utf8;

broadcast use vstd::array::group_array_axioms;

use vstd::string::StrSliceExecFns;
use vstd::utf8::decode_utf8;

/// True when the delimiter `d` occurs in `s` at character position `i`.
pub open spec fn match_at(s: Seq<char>, d: Seq<char>, i: int) -> bool {
    &&& 0 <= i
    &&& i + d.len() <= s.len()
    &&& s.subrange(i, i + d.len()) == d
}

/// Position of the first occurrence of `d` in `s` at or after position `i`,
/// or `-1` if there is none.
pub open spec fn first_match_from(s: Seq<char>, d: Seq<char>, i: int) -> int
    decreases s.len() - i + 1,
    when 0 <= i
{
    if i + d.len() > s.len() {
        -1
    } else if match_at(s, d, i) {
        i
    } else {
        first_match_from(s, d, i + 1)
    }
}

/// `first_match_from` finds the least match position at or after `i`, and
/// reports `-1` exactly when there is none.
pub proof fn lemma_first_match_from(s: Seq<char>, d: Seq<char>, i: int)
    requires
        0 <= i,
    ensures
        first_match_from(s, d, i) == -1 ==> forall|j: int| i <= j ==> !match_at(s, d, j),
        first_match_from(s, d, i) != -1 ==> {
            let m = first_match_from(s, d, i);
            &&& i <= m
            &&& match_at(s, d, m)
            &&& forall|j: int| i <= j < m ==> !match_at(s, d, j)
        },
    decreases s.len() - i + 1,
{
    if i + d.len() > s.len() {
        assert forall|j: int| i <= j implies !match_at(s, d, j) by {
            assert(j + d.len() > s.len());
        }
    } else if match_at(s, d, i) {
    } else {
        lemma_first_match_from(s, d, i + 1);
    }
}

/// Splits `s` on every occurrence of `d`, scanning left to right; the
/// trailing segment, possibly empty, is always part of the result.
pub open spec fn split_chars(s: Seq<char>, d: Seq<char>) -> Seq<Seq<char>>
    decreases s.len(),
    when d.len() >= 1
    via split_chars_decreases
{
    let m = first_match_from(s, d, 0);
    if m < 0 {
        seq![s]
    } else {
        seq![s.subrange(0, m)] + split_chars(s.skip(m + d.len()), d)
    }
}

#[via_fn]
proof fn split_chars_decreases(s: Seq<char>, d: Seq<char>) {
    lemma_first_match_from(s, d, 0);
}

/// The segments of `split_chars`, each in the stored form that a string
/// vector gives it.
pub open spec fn split_stored(s: Seq<char>, d: Seq<char>) -> Seq<Seq<u8>> {
    Seq::new(split_chars(s, d).len(), |k: int| stored_item(encode_utf8(split_chars(s, d)[k])))
}

/// Compares the characters of `s` at positions `i..i + d.len()` with `d`.
fn str_eq_at(s: &str, i: usize, d: &str) -> (r: bool)
    requires
        i + d@.len() <= s@.len(),
        s@.len() <= usize::MAX,
    ensures
        r == (s@.subrange(i as int, i + d@.len()) == d@),
{
    let dl = d.unicode_len();
    let mut j: usize = 0;
    while j < dl
        invariant
            j <= dl,
            dl == d@.len(),
            i + dl <= s@.len(),
            s@.len() <= usize::MAX,
            forall|t: int| 0 <= t < j ==> s@[i + t] == d@[t],
        decreases dl - j,
    {
        if s.get_char(i + j) != d.get_char(j) {
            proof {
                assert(s@.subrange(i as int, i + d@.len())[j as int] == s@[i + j]);
            }
            return false;
        }
        j = j + 1;
    }
    proof {
        assert(s@.subrange(i as int, i + d@.len()) =~= d@);
    }
    true
}

/// Bounded stack-allocated string.
///
/// A `BoundedStr` is a variable-length string with a fixed capacity `N`
/// (at most 255). The length is stored in the first byte and the remaining
/// bytes hold the string content; unused bytes stay NUL.
///
/// Its view is the sequence of content bytes, always valid UTF-8.
#[derive(Debug, Copy, Clone, PartialEq, Eq, PartialOrd, Ord, Hash)]
pub struct BoundedStr<const N: usize, Alignment> {
    length: u8,
    data: [u8; N],
    marker: core::marker::PhantomData<Alignment>,
}

impl<const N: usize, Alignment> View for BoundedStr<N, Alignment> {
    type V = Seq<u8>;

    closed spec fn view(&self) -> Seq<u8> {
        self.data@.subrange(0, self.length as int)
    }
}

impl<const N: usize, Alignment> Default for BoundedStr<N, Alignment> {
    /// The empty string.
    fn default() -> (r: Self)
        ensures
            r@ == Seq::<u8>::empty(),
            N <= 255 ==> r.wf(),
    {
        let r = BoundedStr { length: 0u8, data: [0u8; N], marker: core::marker::PhantomData };
        proof {
            assert(r@ =~= Seq::<u8>::empty());
        }
        r
    }
}

impl<const N: usize, Alignment> BoundedStr<N, Alignment> {
    /// The internal invariant: the length fits the capacity, the content is
    /// valid UTF-8, and every byte past the content is NUL.
    pub closed spec fn wf(&self) -> bool {
        &&& N <= 255
        &&& self.length as int <= N as int
        &&& valid_utf8(self@)
        &&& forall|j: int| self.length as int <= j < N ==> self.data@[j] == 0
    }

    /// Creates an empty `BoundedStr`.
    pub fn new() -> (r: Self)
        requires
            N <= 255,
        ensures
            r.wf(),
            r@ == Seq::<u8>::empty(),
    {
        let r = BoundedStr { length: 0u8, data: [0u8; N], marker: core::marker::PhantomData };
        proof {
            assert(r@ =~= Seq::<u8>::empty());
        }
        r
    }

    /// Attempts to construct a `BoundedStr` holding the bytes of `s`; fails
    /// exactly when those bytes do not fit into the capacity.
    pub fn try_from(s: &str) -> (r: Result<Self, ExceedsCapacity>)
        requires
            N <= 255,
        ensures
            match r {
                Ok(b) => {
                    &&& s.spec_bytes().len() <= N
                    &&& b.wf()
                    &&& b@ == s.spec_bytes()
                },
                Err(e) => {
                    &&& s.spec_bytes().len() > N
                    &&& e.length == s.spec_bytes().len()
                    &&& e.capacity == N
                },
            },
    {
        let bytes = s.as_bytes();
        let length = bytes.len();
        if length > N {
            return Err(ExceedsCapacity { length, capacity: N });
        }
        let mut data: [u8; N] = [0u8; N];
        let mut i: usize = 0;
        while i < length
            invariant
                i <= length,
                length <= N,
                bytes@ == s.spec_bytes(),
                length == s.spec_bytes().len(),
                data@.len() == N,
                forall|j: int| 0 <= j < i ==> data@[j] == s.spec_bytes()[j],
                forall|j: int| i <= j < N ==> data@[j] == 0,
            decreases length - i,
        {
            data[i] = bytes[i];
            i = i + 1;
        }
        let r = BoundedStr { length: length as u8, data, marker: core::marker::PhantomData };
        proof {
            assert(r@ =~= s.spec_bytes());
            vstd::utf8::encode_utf8_valid_utf8(s@);
        }
        Ok(r)
    }

    /// Constructs a `BoundedStr` from a string already known to fit.
    pub fn const_from(s: &str) -> (r: Self)
        requires
            N <= 255,
            s.spec_bytes().len() <= N,
        ensures
            r.wf(),
            r@ == s.spec_bytes(),
    {
        match Self::try_from(s) {
            Ok(b) => b,
            Err(_) => vstd::pervasive::unreached(),
        }
    }

    /// Attempts to construct a `BoundedStr`, returning `None` exactly when
    /// the bytes of `s` do not fit into the capacity.
    pub fn const_try_from(s: &str) -> (r: Option<Self>)
        requires
            N <= 255,
        ensures
            match r {
                Some(b) => {
                    &&& s.spec_bytes().len() <= N
                    &&& b.wf()
                    &&& b@ == s.spec_bytes()
                },
                None => s.spec_bytes().len() > N,
            },
    {
        match Self::try_from(s) {
            Ok(b) => Some(b),
            Err(_) => None,
        }
    }

    /// Returns the string length in bytes.
    pub fn len(&self) -> (r: usize)
        requires
            self.wf(),
        ensures
            r == self@.len(),
    {
        self.length as usize
    }

    /// Checks whether the string is empty.
    pub fn is_empty(&self) -> (r: bool)
        requires
            self.wf(),
        ensures
            r == (self@.len() == 0),
    {
        self.len() == 0
    }

    /// Appends the bytes of `s`; fails, leaving the string unchanged, exactly
    /// when the combined length would exceed the capacity.
    pub fn push_str(&mut self, s: &str) -> (r: Result<(), ExceedsCapacity>)
        requires
            old(self).wf(),
            old(self)@.len() + s.spec_bytes().len() <= usize::MAX,
        ensures
            final (self).wf(),
            match r {
                Ok(()) => {
                    &&& old(self)@.len() + s.spec_bytes().len() <= N
                    &&& final (self)@ == old(self)@ + s.spec_bytes()
                },
                Err(e) => {
                    &&& old(self)@.len() + s.spec_bytes().len() > N
                    &&& *final (self) == *old(self)
                    &&& e.length == old(self)@.len() + s.spec_bytes().len()
                    &&& e.capacity == N
                },
            },
    {
        let bytes = s.as_bytes();
        let length = self.length as usize;
        let new_len = length + bytes.len();
        if new_len > N {
            return Err(ExceedsCapacity { length: new_len, capacity: N });
        }
        let mut i: usize = 0;
        while i < bytes.len()
            invariant
                i <= bytes.len(),
                bytes@ == s.spec_bytes(),
                length == old(self)@.len(),
                length + bytes.len() <= N,
                new_len == length + bytes.len(),
                N <= 255,
                self.length == old(self).length,
                self.data@.len() == N,
                forall|j: int| 0 <= j < length ==> self.data@[j] == old(self)@[j],
                forall|j: int| 0 <= j < i ==> self.data@[length + j] == s.spec_bytes()[j],
                forall|j: int| length + i <= j < N ==> self.data@[j] == 0,
            decreases bytes.len() - i,
        {
            self.data[length + i] = bytes[i];
            i = i + 1;
        }
        self.length = new_len as u8;
        proof {
            assert(self@ =~= old(self)@ + s.spec_bytes());
            vstd::utf8::encode_utf8_valid_utf8(s@);
            vstd::utf8::valid_utf8_concat(old(self)@, s.spec_bytes());
        }
        Ok(())
    }

    /// Appends one character; fails, leaving the string unchanged, exactly
    /// when its UTF-8 encoding would not fit into the remaining capacity.
    pub fn push(&mut self, c: char) -> (r: Result<(), ExceedsCapacity>)
        requires
            old(self).wf(),
            old(self)@.len() + 4 <= usize::MAX,
        ensures
            final (self).wf(),
            match r {
                Ok(()) => {
                    &&& old(self)@.len() + encode_utf8(seq![c]).len() <= N
                    &&& final (self)@ == old(self)@ + encode_utf8(seq![c])
                },
                Err(e) => {
                    &&& old(self)@.len() + encode_utf8(seq![c]).len() > N
                    &&& *final (self) == *old(self)
                    &&& e.length == old(self)@.len() + encode_utf8(seq![c]).len()
                    &&& e.capacity == N
                },
            },
    {
        let t = char_to_string(c);
        proof {
            reveal_with_fuel(vstd::utf8::encode_utf8, 2);
            assert(seq![c].drop_first() =~= Seq::<char>::empty());
            assert(encode_utf8(seq![c]) =~= vstd::utf8::encode_scalar(c as u32));
            assert(encode_utf8(seq![c]).len() <= 4);
        }
        self.push_str(t.as_str())
    }


    /// Splits the string at every occurrence of `delimiter`, collecting the
    /// segments, in order, into a string vector sized for capacity `N`.
    ///
    /// Adjacent occurrences, or one at either end, yield empty segments; the
    /// trailing segment is always part of the result.
    pub fn split(&self, delimiter: &str) -> (r: StrVec<BitmapType<N>, N, AlignmentType<N>>) where
        BitmapMarker: BitmapForLength<N>,
        AlignmentMarker: AlignmentForLength<N>,

        requires
            self.wf(),
            delimiter@.len() >= 1,
            total_len(split_stored(decode_utf8(self@), delimiter@)) <= N,
        ensures
            r.wf(),
            r@ == split_stored(decode_utf8(self@), delimiter@),
    {
        proof {
            <BitmapMarker as BitmapForLength<N>>::wide_enough();
        }
        let s = self.as_str();
        proof {
            vstd::utf8::encode_utf8_decode_utf8(s@);
        }
        let ghost full = s@;
        let ghost dd = delimiter@;
        let ghost ss = split_chars(full, dd);
        let ghost st = split_stored(full, dd);
        let n = s.unicode_len();
        let dl = delimiter.unicode_len();
        let mut result: StrVec<BitmapType<N>, N, AlignmentType<N>> = StrVec::new();
        let mut start: usize = 0;
        let mut i: usize = 0;
        let ghost mut done: int = 0;
        proof {
            assert(full.skip(0) =~= full);
            assert(ss.skip(0) =~= ss);
            assert(result@ =~= st.take(0));
        }
        while i < n
            invariant
                N <= 255,
                n == full.len(),
                dl == dd.len(),
                dl >= 1,
                full == s@,
                dd == delimiter@,
                start <= i,
                i <= n,
                result.wf(),
                0 <= done,
                done < ss.len(),
                ss == split_chars(full, dd),
                st == split_stored(full, dd),
                total_len(st) <= N,
                result@ == st.take(done),
                total_len(st.take(done)) <= N,
                split_chars(full.skip(start as int), dd) == ss.skip(done),
                forall|j: int| start <= j < i ==> !match_at(full, dd, j),
            decreases n - i,
        {
            if dl <= n - i && str_eq_at(s, i, delimiter) {
                let sub = s.substring_char(start, i);
                proof {
                    let suffix = full.skip(start as int);
                    assert(suffix.subrange(i - start, i - start + dl) =~= full.subrange(
                        i as int,
                        i + dl,
                    ));
                    assert(match_at(suffix, dd, i - start));
                    assert forall|j: int| 0 <= j < i - start implies !match_at(suffix, dd, j) by {
                        if match_at(suffix, dd, j) {
                            assert(suffix.subrange(j, j + dd.len()) =~= full.subrange(
                                start + j,
                                start + j + dd.len(),
                            ));
                            assert(match_at(full, dd, start + j));
                            assert(false);
                        }
                    }
                    lemma_first_match_from(suffix, dd, 0);
                    let fm = first_match_from(suffix, dd, 0);
                    assert(fm == i - start);
                    let seg = suffix.subrange(0, fm);
                    assert(split_chars(suffix, dd) == seq![seg] + split_chars(
                        suffix.skip(fm + dd.len()),
                        dd,
                    ));
                    assert(ss[done] == split_chars(suffix, dd)[0]);
                    assert(ss[done] == seg);
                    assert(seg =~= full.subrange(start as int, i as int));
                    assert(suffix.skip(fm + dd.len()) =~= full.skip(i + dl));
                    let rest = split_chars(suffix.skip(fm + dd.len()), dd);
                    assert((seq![seg] + rest).skip(1) =~= rest);
                    assert(ss.skip(done).skip(1) =~= ss.skip(done + 1));
                    assert(split_chars(full.skip(i + dl), dd) == ss.skip(done + 1));
                    assert(st[done] == stored_item(encode_utf8(ss[done])));
                    assert(st.take(done + 1).drop_last() =~= st.take(done));
                    assert(st.take(done + 1).last() == st[done]);
                    assert(st.take(st.len() as int) =~= st);
                    lemma_total_len_prefix_monotone(st, done + 1, st.len() as int);
                    assert(total_len(st.take(done + 1)) == total_len(st.take(done))
                        + st[done].len());
                    assert(sub@ == seg);
                }
                match result.push(sub) {
                    Ok(()) => {},
                    Err(_) => {
                        proof {
                            assert(false);
                        }
                    },
                }
                proof {
                    done = done + 1;
                    assert(result@ =~= st.take(done));
                    assert(split_chars(full.skip(i + dl), dd).len() >= 1);
                    assert(done < ss.len());
                }
                start = i + dl;
                i = i + dl;
            } else {
                proof {
                    if dl <= n - i {
                        assert(!(s@.subrange(i as int, i + dd.len()) == dd));
                        assert(!match_at(full, dd, i as int));
                    } else {
                        assert(!match_at(full, dd, i as int));
                    }
                }
                i = i + 1;
            }
        }
        let sub = s.substring_char(start, n);
        proof {
            let suffix = full.skip(start as int);
            assert forall|j: int| 0 <= j implies !match_at(suffix, dd, j) by {
                if match_at(suffix, dd, j) {
                    assert(suffix.subrange(j, j + dd.len()) =~= full.subrange(
                        start + j,
                        start + j + dd.len(),
                    ));
                    assert(match_at(full, dd, start + j));
                    assert(start + j < n);
                    assert(false);
                }
            }
            lemma_first_match_from(suffix, dd, 0);
            if first_match_from(suffix, dd, 0) != -1 {
                assert(match_at(suffix, dd, first_match_from(suffix, dd, 0)));
                assert(false);
            }
            assert(split_chars(suffix, dd) == seq![suffix]);
            assert(ss.skip(done) == seq![suffix]);
            assert(ss.len() == done + 1);
            assert(ss.skip(done)[0] == ss[done]);
            assert(ss[done] == suffix);
            assert(sub@ =~= suffix);
            assert(st[done] == stored_item(encode_utf8(ss[done])));
            assert(st.take(done + 1).drop_last() =~= st.take(done));
            assert(st.take(done + 1).last() == st[done]);
            assert(st.take(st.len() as int) =~= st);
            lemma_total_len_prefix_monotone(st, done + 1, st.len() as int);
            assert(total_len(st.take(done + 1)) == total_len(st.take(done)) + st[done].len());
        }
        match result.push(sub) {
            Ok(()) => {},
            Err(_) => {
                proof {
                    assert(false);
                }
            },
        }
        proof {
            assert(result@ =~= st.take(done + 1));
            assert(st.take(done + 1) =~= st);
            assert(full == decode_utf8(self@));
        }
        result
    }

    /// Returns the content as text.
    pub fn as_str(&self) -> (r: &str)
        requires
            self.wf(),
        ensures
            r.spec_bytes() == self@,
    {
        let whole = self.data.as_slice();
        let part = &whole[0..self.length as usize];
        bytes_as_str(part)
    }
}

} // verus!
