use vstd::prelude::*;

use crate::bitmap::Bitmap;
use crate::bitmap::find_nth_span;
use crate::bitmap::count_set_bits;
use crate::bitmap::lemma_ones_empty;
use crate::bitmap::lemma_ones_props;
use crate::bitmap::lemma_ones_set_above;
use crate::bitmap::lemma_trailing_zeros_ones;
use crate::bitmap::ones;
use crate::bitmap::span_start;
use crate::errors::ExceedsCapacity;
use crate::strutil::bytes_as_str;
use crate::strutil::lemma_nul_bytes_valid;

verus! {

use vstd::string::StringSliceAdditionalSpecFns;
use vstd::utf8::valid_utf8;
use vstd::utf8::encode_utf8;

broadcast use vstd::array::group_array_axioms;

/// The bytes under which an item is stored: the empty string is stored as a
/// single NUL byte, since every item must end at some set boundary bit.
pub open spec fn stored_item(b: Seq<u8>) -> Seq<u8> {
    if b.len() == 0 {
        seq![0u8]
    } else {
        b
    }
}

/// The bytes an item reads back as: a single stored NUL byte decodes to the
/// empty string, so a pushed empty string and a pushed NUL character are
/// indistinguishable.
pub open spec fn decoded_item(b: Seq<u8>) -> Seq<u8> {
    if b.len() == 1 && b[0] == 0 {
        Seq::empty()
    } else {
        b
    }
}

/// Total number of bytes that a sequence of stored items occupies.
pub open spec fn total_len(items: Seq<Seq<u8>>) -> int
    decreases items.len(),
{
    if items.len() == 0 {
        0
    } else {
        total_len(items.drop_last()) + items.last().len()
    }
}

/// Appending an item grows the total by that item's length.
pub proof fn lemma_total_len_push(items: Seq<Seq<u8>>, x: Seq<u8>)
    ensures
        total_len(items.push(x)) == total_len(items) + x.len(),
{
    assert(items.push(x).drop_last() =~= items);
}

/// The stored form of each string in a list.
pub open spec fn stored_items(vals: Seq<&str>) -> Seq<Seq<u8>> {
    Seq::new(vals.len(), |k: int| stored_item(vals[k].spec_bytes()))
}

/// The stored form of each string in an owned list.
pub open spec fn stored_items_owned(vals: Seq<String>) -> Seq<Seq<u8>> {
    Seq::new(vals.len(), |k: int| stored_item(encode_utf8(vals[k]@)))
}

/// Stack-allocated, appendable string vector.
///
/// A `StrVec` holds up to `N` items whose stored bytes together occupy at
/// most `N` bytes, all in one contiguous buffer. A bit-mask of width at
/// least `N` marks each item's final byte with a set bit.
///
/// Its view is the sequence of stored items, each a non-empty valid UTF-8
/// byte sequence; an empty string is stored as one NUL byte.
#[derive(Debug, PartialEq, Eq, Copy, Clone, Hash, PartialOrd, Ord)]
pub struct StrVec<T: Bitmap, const N: usize, Alignment> {
    bitmap: T,
    data: [u8; N],
    marker: core::marker::PhantomData<Alignment>,
}

impl<T: Bitmap, const N: usize, Alignment> View for StrVec<T, N, Alignment> {
    type V = Seq<Seq<u8>>;

    closed spec fn view(&self) -> Seq<Seq<u8>> {
        Seq::new(
            ones(self.bitmap.bits()).len(),
            |k: int|
                self.data@.subrange(
                    span_start(ones(self.bitmap.bits()), k),
                    ones(self.bitmap.bits())[k] + 1,
                ),
        )
    }
}

impl<T: Bitmap, const N: usize, Alignment> Default for StrVec<T, N, Alignment> {
    /// The empty vector.
    fn default() -> (r: Self)
        ensures
            r@ == Seq::<Seq<u8>>::empty(),
            T::width() >= N ==> r.wf(),
    {
        let r = StrVec { bitmap: T::zero(), data: [0u8; N], marker: core::marker::PhantomData };
        proof {
            lemma_ones_empty(r.bitmap.bits());
            assert(r@ =~= Seq::<Seq<u8>>::empty());
        }
        r
    }
}

impl<T: Bitmap, const N: usize, Alignment> StrVec<T, N, Alignment> {
    /// The raw bit-mask.
    pub closed spec fn spec_bitmap(&self) -> T {
        self.bitmap
    }

    /// The raw data buffer.
    pub closed spec fn spec_data(&self) -> Seq<u8> {
        self.data@
    }

    /// Number of buffer bytes in use.
    pub closed spec fn used(&self) -> int {
        let os = ones(self.bitmap.bits());
        if os.len() == 0 {
            0
        } else {
            os.last() + 1
        }
    }

    /// The internal invariant: the bit-mask is wide enough for the buffer,
    /// every boundary bit lies inside the buffer, bytes past the used prefix
    /// are NUL, and every stored item is valid UTF-8.
    pub closed spec fn wf(&self) -> bool {
        let os = ones(self.bitmap.bits());
        &&& T::width() >= N
        &&& self.bitmap.bits().len() == T::width()
        &&& self.used() <= N
        &&& forall|k: int| 0 <= k < os.len() ==> 0 <= #[trigger] os[k] < N
        &&& forall|j: int| self.used() <= j < N ==> self.data@[j] == 0
        &&& forall|k: int| 0 <= k < self@.len() ==> valid_utf8(#[trigger] self@[k])
    }

    /// The totals of every view prefix follow the boundary positions: the
    /// first `k` items together occupy the bytes up to boundary `k - 1`.
    proof fn lemma_prefix_total(&self, k: int)
        requires
            self.wf(),
            0 <= k <= self@.len(),
        ensures
            total_len(self@.take(k)) == if k == 0 {
                0int
            } else {
                ones(self.bitmap.bits())[k - 1] + 1
            },
        decreases k,
    {
        let os = ones(self.bitmap.bits());
        lemma_ones_props(self.bitmap.bits());
        if k > 0 {
            self.lemma_prefix_total(k - 1);
            assert(self@.take(k).drop_last() =~= self@.take(k - 1));
            assert(self@.take(k).last() == self@[k - 1]);
            assert(self@[k - 1].len() == os[k - 1] + 1 - span_start(os, k - 1));
        }
    }

    /// The whole view occupies exactly the used prefix of the buffer.
    proof fn lemma_total_is_used(&self)
        requires
            self.wf(),
        ensures
            total_len(self@) == self.used(),
    {
        self.lemma_prefix_total(self@.len() as int);
        assert(self@.take(self@.len() as int) =~= self@);
    }

    /// Creates an empty `StrVec`.
    pub fn new() -> (r: Self)
        requires
            T::width() >= N,
        ensures
            r.wf(),
            r@ == Seq::<Seq<u8>>::empty(),
    {
        let r = StrVec { bitmap: T::zero(), data: [0u8; N], marker: core::marker::PhantomData };
        proof {
            lemma_ones_empty(r.bitmap.bits());
            assert(r@ =~= Seq::<Seq<u8>>::empty());
        }
        r
    }

    /// Number of items.
    pub fn len(&self) -> (r: usize)
        ensures
            r == self@.len(),
    {
        count_set_bits(&self.bitmap)
    }

    /// Checks whether the vector holds no items.
    pub fn is_empty(&self) -> (r: bool)
        ensures
            r == (self@.len() == 0),
    {
        self.len() == 0
    }

    /// Byte offset at which the next item would be stored: the total size of
    /// what is already stored.
    pub fn next_offset(&self) -> (r: usize)
        requires
            self.wf(),
        ensures
            r == total_len(self@),
            r == self.used(),
    {
        let w = T::bitsize();
        let tz = self.bitmap.trailing_zeros();
        proof {
            self.bitmap.bits_len();
            lemma_trailing_zeros_ones(self.bitmap.bits(), tz as int);
            lemma_ones_props(self.bitmap.bits());
            self.lemma_total_is_used();
        }
        w - tz
    }

    /// Appends `s` (stored as one NUL byte if empty); fails, leaving the
    /// vector unchanged, exactly when the stored bytes would not fit.
    pub fn push(&mut self, s: &str) -> (r: Result<(), ExceedsCapacity>)
        requires
            old(self).wf(),
            total_len(old(self)@) + s.spec_bytes().len() + 1 <= usize::MAX,
        ensures
            final (self).wf(),
            match r {
                Ok(()) => {
                    &&& total_len(old(self)@) + stored_item(s.spec_bytes()).len() <= N
                    &&& final (self)@ == old(self)@.push(stored_item(s.spec_bytes()))
                },
                Err(e) => {
                    &&& total_len(old(self)@) + stored_item(s.spec_bytes()).len() > N
                    &&& *final (self) == *old(self)
                    &&& e.length == total_len(old(self)@) + stored_item(s.spec_bytes()).len()
                    &&& e.capacity == N
                },
            },
    {
        let offset = self.next_offset();
        let slen = s.len();
        let ilen: usize = if slen == 0 {
            1
        } else {
            slen
        };
        if ilen > N || offset > N - ilen {
            return Err(ExceedsCapacity { length: offset + ilen, capacity: N });
        }
        let ghost obits = self.bitmap.bits();
        let ghost odata = self.data@;
        let ghost os = ones(obits);
        let ghost p: int = offset + ilen - 1;
        proof {
            lemma_ones_props(obits);
            // the new boundary position is above every set bit
            assert(old(self).used() == offset);
            assert forall|k: int| 0 <= k < os.len() implies #[trigger] os[k] < p by {
                assert(os[k] <= os[os.len() - 1]);
            }
            if obits[p] {
                assert(exists|k: int| 0 <= k < os.len() && #[trigger] os[k] == p);
                assert(false);
            }
            lemma_ones_set_above(obits, p);
        }
        self.bitmap.set(offset + ilen - 1);
        if slen == 0 {
            self.data[offset] = 0u8;
        } else {
            let bytes = s.as_bytes();
            let mut i: usize = 0;
            while i < slen
                invariant
                    i <= slen,
                    bytes@ == s.spec_bytes(),
                    slen == s.spec_bytes().len(),
                    offset + slen <= N,
                    self.data@.len() == N,
                    self.bitmap.bits() == obits.update(p, true),
                    forall|j: int| 0 <= j < offset ==> self.data@[j] == odata[j],
                    forall|j: int| 0 <= j < i ==> self.data@[offset + j] == s.spec_bytes()[j],
                    forall|j: int| offset + i <= j < N ==> self.data@[j] == odata[j],
                decreases slen - i,
            {
                self.data[offset + i] = bytes[i];
                i = i + 1;
            }
        }
        proof {
            let item = stored_item(s.spec_bytes());
            let nbits = self.bitmap.bits();
            let nos = ones(nbits);
            assert(nos == os.push(p));
            lemma_ones_props(obits);
            old(self).lemma_total_is_used();
            assert forall|k: int| 0 <= k < os.len() implies self@[k] == old(self)@[k] by {
                assert(nos[k] == os[k]);
                if k > 0 {
                    assert(nos[k - 1] == os[k - 1]);
                }
                assert(self@[k] =~= old(self)@[k]);
            }
            assert(self@[os.len() as int] =~= item);
            assert(self@ =~= old(self)@.push(item));
            lemma_total_len_push(old(self)@, item);
            if s.spec_bytes().len() == 0 {
                lemma_nul_bytes_valid(item);
            } else {
                vstd::utf8::encode_utf8_valid_utf8(s@);
            }
            assert forall|k: int| 0 <= k < self@.len() implies valid_utf8(#[trigger] self@[k]) by {
                if k < os.len() {
                    assert(self@[k] == old(self)@[k]);
                }
            }
            assert(T::width() >= N);
            assert(self.bitmap.bits().len() == T::width());
            assert(nos.last() == p);
            assert(self.used() == p + 1);
            assert(self.used() <= N);
            assert(forall|k: int| 0 <= k < nos.len() ==> 0 <= #[trigger] nos[k] < N);
            assert forall|j: int| self.used() <= j < N implies self.data@[j] == 0 by {
                assert(self.data@[j] == odata[j]);
                assert(j >= old(self).used());
            }
            assert(self.wf());
        }
        Ok(())
    }

    /// Removes all elements.
    pub fn clear(&mut self)
        requires
            old(self).wf(),
        ensures
            final (self).wf(),
            final (self)@ == Seq::<Seq<u8>>::empty(),
    {
        *self = Self::new();
    }

    /// Returns the item at `index` decoded as text, or `None` when there are
    /// at most `index` items. A stored single NUL byte reads as the empty
    /// string.
    pub fn get(&self, index: usize) -> (r: Option<&str>)
        requires
            self.wf(),
        ensures
            match r {
                Some(t) => {
                    &&& index < self@.len()
                    &&& t.spec_bytes() == decoded_item(self@[index as int])
                },
                None => index >= self@.len(),
            },
    {
        proof {
            reveal_strlit("");
        }
        match find_nth_span(&self.bitmap, index) {
            None => None,
            Some((start, end)) => {
                proof {
                    lemma_ones_props(self.bitmap.bits());
                    self.lemma_total_is_used();
                    assert(self@[index as int] == self.data@.subrange(start as int, end as int));
                }
                let sl = &self.data.as_slice()[start..end];
                if end - start == 1 && sl[0] == 0 {
                    proof {
                        assert(decoded_item(self@[index as int]) =~= Seq::<u8>::empty());
                        assert(encode_utf8(""@) =~= Seq::<u8>::empty());
                    }
                    Some("")
                } else {
                    Some(bytes_as_str(sl))
                }
            },
        }
    }

    /// Collects every item, decoded as text, into a `Vec`.
    pub fn to_vec(&self) -> (r: Vec<&str>)
        requires
            self.wf(),
        ensures
            r@.len() == self@.len(),
            forall|k: int|
                0 <= k < self@.len() ==> (#[trigger] r@[k]).spec_bytes() == decoded_item(self@[k]),
    {
        let n = self.len();
        let mut out: Vec<&str> = Vec::new();
        let mut k: usize = 0;
        while k < n
            invariant
                k <= n,
                n == self@.len(),
                self.wf(),
                out@.len() == k,
                forall|j: int|
                    0 <= j < k ==> (#[trigger] out@[j]).spec_bytes() == decoded_item(self@[j]),
            decreases n - k,
        {
            match self.get(k) {
                Some(t) => out.push(t),
                None => {
                    proof {
                        assert(false);
                    }
                },
            }
            k = k + 1;
        }
        out
    }

    /// Attempts to build a `StrVec` from the given strings in order; fails
    /// at the first string whose stored bytes no longer fit.
    pub fn try_from(values: &[&str]) -> (r: Result<Self, ExceedsCapacity>)
        requires
            T::width() >= N,
            forall|k: int|
                0 <= k < values@.len() ==> (#[trigger] values@[k]).spec_bytes().len() + N + 1
                    <= usize::MAX,
        ensures
            match r {
                Ok(v) => {
                    &&& total_len(stored_items(values@)) <= N
                    &&& v.wf()
                    &&& v@ == stored_items(values@)
                },
                Err(e) => {
                    &&& total_len(stored_items(values@)) > N
                    &&& e.capacity == N
                    &&& exists|k: int|
                        0 <= k < values@.len() && total_len(
                            #[trigger] stored_items(values@).take(k + 1),
                        ) > N && total_len(stored_items(values@).take(k)) <= N && e.length
                            == total_len(stored_items(values@).take(k + 1))
                },
            },
    {
        let ghost st = stored_items(values@);
        let mut v = Self::new();
        let mut i: usize = 0;
        while i < values.len()
            invariant
                T::width() >= N,
                i <= values@.len(),
                v.wf(),
                v@ == st.take(i as int),
                st == stored_items(values@),
                total_len(st.take(i as int)) <= N,
                forall|k: int|
                    0 <= k < values@.len() ==> (#[trigger] values@[k]).spec_bytes().len() + N + 1
                        <= usize::MAX,
            decreases values@.len() - i,
        {
            let s = values[i];
            let ghost item = stored_item(s.spec_bytes());
            proof {
                assert(st.take(i + 1).drop_last() =~= st.take(i as int));
                assert(st.take(i + 1).last() == item);
                lemma_total_len_push(st.take(i as int), item);
                assert(st.take(i + 1) =~= st.take(i as int).push(item));
            }
            match v.push(s) {
                Ok(()) => {},
                Err(e) => {
                    proof {
                        assert(total_len(st.take(i + 1)) > N);
                        assert(st.take(values@.len() as int) =~= st);
                        lemma_total_len_prefix_monotone(st, i + 1, values@.len() as int);
                    }
                    return Err(e);
                },
            }
            i = i + 1;
        }
        proof {
            assert(st.take(values@.len() as int) =~= st);
        }
        Ok(v)
    }

    /// Builds a `StrVec` from strings already known to fit together.
    pub fn from(values: &[&str]) -> (r: Self)
        requires
            T::width() >= N,
            total_len(stored_items(values@)) <= N,
            forall|k: int|
                0 <= k < values@.len() ==> (#[trigger] values@[k]).spec_bytes().len() + N + 1
                    <= usize::MAX,
        ensures
            r.wf(),
            r@ == stored_items(values@),
    {
        match Self::try_from(values) {
            Ok(v) => v,
            Err(_) => vstd::pervasive::unreached(),
        }
    }

    /// Attempts to build a `StrVec` from owned strings in order; fails at
    /// the first string whose stored bytes no longer fit.
    pub fn try_from_owned(values: Vec<String>) -> (r: Result<Self, ExceedsCapacity>)
        requires
            T::width() >= N,
            forall|k: int|
                0 <= k < values@.len() ==> encode_utf8((#[trigger] values@[k])@).len() + N + 1
                    <= usize::MAX,
        ensures
            match r {
                Ok(v) => {
                    &&& total_len(stored_items_owned(values@)) <= N
                    &&& v.wf()
                    &&& v@ == stored_items_owned(values@)
                },
                Err(e) => {
                    &&& total_len(stored_items_owned(values@)) > N
                    &&& e.capacity == N
                    &&& exists|k: int|
                        0 <= k < values@.len() && total_len(
                            #[trigger] stored_items_owned(values@).take(k + 1),
                        ) > N && total_len(stored_items_owned(values@).take(k)) <= N && e.length
                            == total_len(stored_items_owned(values@).take(k + 1))
                },
            },
    {
        let ghost st = stored_items_owned(values@);
        let mut v = Self::new();
        let mut i: usize = 0;
        while i < values.len()
            invariant
                T::width() >= N,
                i <= values@.len(),
                v.wf(),
                v@ == st.take(i as int),
                st == stored_items_owned(values@),
                total_len(st.take(i as int)) <= N,
                forall|k: int|
                    0 <= k < values@.len() ==> encode_utf8((#[trigger] values@[k])@).len() + N + 1
                        <= usize::MAX,
            decreases values@.len() - i,
        {
            let s: &str = values[i].as_str();
            let ghost item = stored_item(s.spec_bytes());
            proof {
                assert(st.take(i + 1).drop_last() =~= st.take(i as int));
                assert(st.take(i + 1).last() == item);
                lemma_total_len_push(st.take(i as int), item);
                assert(st.take(i + 1) =~= st.take(i as int).push(item));
            }
            match v.push(s) {
                Ok(()) => {},
                Err(e) => {
                    proof {
                        assert(total_len(st.take(i + 1)) > N);
                        assert(st.take(values@.len() as int) =~= st);
                        lemma_total_len_prefix_monotone(st, i + 1, values@.len() as int);
                    }
                    return Err(e);
                },
            }
            i = i + 1;
        }
        proof {
            assert(st.take(values@.len() as int) =~= st);
        }
        Ok(v)
    }

    /// Builds a `StrVec` from owned strings already known to fit together.
    pub fn from_owned(values: Vec<String>) -> (r: Self)
        requires
            T::width() >= N,
            total_len(stored_items_owned(values@)) <= N,
            forall|k: int|
                0 <= k < values@.len() ==> encode_utf8((#[trigger] values@[k])@).len() + N + 1
                    <= usize::MAX,
        ensures
            r.wf(),
            r@ == stored_items_owned(values@),
    {
        match Self::try_from_owned(values) {
            Ok(v) => v,
            Err(_) => vstd::pervasive::unreached(),
        }
    }

    /// The raw bit-mask value.
    pub fn bitmap(&self) -> (r: T)
        ensures
            r == self.spec_bitmap(),
    {
        self.bitmap
    }

    /// The raw data buffer.
    pub fn data(&self) -> (r: &[u8; N])
        ensures
            r@ == self.spec_data(),
    {
        &self.data
    }
}

/// Totals of prefixes only grow as the prefix grows.
pub proof fn lemma_total_len_prefix_monotone(items: Seq<Seq<u8>>, a: int, b: int)
    requires
        0 <= a <= b <= items.len(),
    ensures
        total_len(items.take(a)) <= total_len(items.take(b)),
    decreases b - a,
{
    if a < b {
        lemma_total_len_prefix_monotone(items, a, b - 1);
        assert(items.take(b).drop_last() =~= items.take(b - 1));
    }
}

} // verus!
