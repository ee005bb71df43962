use vstd::prelude::*;

verus! {

/// Indices of the set bits of `s`, in increasing order.
pub open spec fn ones(s: Seq<bool>) -> Seq<int>
    decreases s.len(),
{
    if s.len() == 0 {
        Seq::empty()
    } else if s.last() {
        ones(s.drop_last()).push(s.len() - 1)
    } else {
        ones(s.drop_last())
    }
}

/// First byte offset of the span that ends at `os[k]`, where `os` lists the
/// boundary positions: one past the previous boundary, or zero for the first.
pub open spec fn span_start(os: Seq<int>, k: int) -> int {
    if k == 0 {
        0
    } else {
        os[k - 1] + 1
    }
}

/// Positional bit-mask over a fixed number of bits.
///
/// Position 0 denotes the most significant bit. A set bit at position `p`
/// records that an item ends at byte offset `p` (inclusive).
pub trait Bitmap: Sized + Copy {
    /// The bits as booleans, position 0 first.
    spec fn bits(&self) -> Seq<bool>;

    /// Number of available bits.
    spec fn width() -> nat;

    /// Every value's bit sequence has exactly `width` entries.
    proof fn bits_len(&self)
        ensures
            self.bits().len() == Self::width(),
    ;

    /// The all-zero bit-mask.
    fn zero() -> (r: Self)
        ensures
            r.bits().len() == Self::width(),
            forall|i: int| 0 <= i < r.bits().len() ==> !r.bits()[i],
    ;

    /// Number of available bits, as a runtime value.
    fn bitsize() -> (r: usize)
        ensures
            r as nat == Self::width(),
    ;

    /// Sets the bit at the given position.
    fn set(&mut self, offset: usize)
        requires
            offset < Self::width(),
        ensures
            final (self).bits() == old(self).bits().update(offset as int, true),
    ;

    /// Clears the bit at the given position.
    fn unset(&mut self, offset: usize)
        requires
            offset < Self::width(),
        ensures
            final (self).bits() == old(self).bits().update(offset as int, false),
    ;

    /// How many of the highest-order positions are zero; equivalently, the
    /// position of the first set bit, or the width if none is set.
    fn leading_zeros(&self) -> (r: usize)
        ensures
            r as nat <= Self::width(),
            forall|j: int| 0 <= j < r ==> !self.bits()[j],
            (r as nat) < Self::width() ==> self.bits()[r as int],
    ;

    /// How many of the lowest-order positions are zero.
    fn trailing_zeros(&self) -> (r: usize)
        ensures
            r as nat <= Self::width(),
            forall|j: int| Self::width() - r <= j < Self::width() ==> !self.bits()[j],
            (r as nat) < Self::width() ==> self.bits()[Self::width() - 1 - r],
    ;
}

/// Number of set bits of `bm`, counted by repeatedly clearing the first one.
pub fn count_set_bits<T: Bitmap>(bm: &T) -> (r: usize)
    ensures
        r as nat == ones(bm.bits()).len(),
{
    let w = T::bitsize();
    let mut value: T = *bm;
    let mut count: usize = 0;
    proof {
        bm.bits_len();
        lemma_ones_props(bm.bits());
    }
    loop
        invariant
            value.bits().len() == T::width(),
            w as nat == T::width(),
            count as nat <= ones(bm.bits()).len(),
            ones(bm.bits()).len() <= T::width(),
            ones(value.bits()) == ones(bm.bits()).skip(count as int),
        decreases ones(value.bits()).len(),
    {
        let lz = value.leading_zeros();
        proof {
            value.bits_len();
            lemma_leading_zeros_ones(value.bits(), lz as int);
        }
        if lz >= w {
            assert(count as nat == ones(bm.bits()).len());
            return count;
        }
        let ghost ob = value.bits();
        proof {
            lemma_ones_unset_first(ob, lz as int);
        }
        value.unset(lz);
        count = count + 1;
        proof {
            assert(ones(value.bits()) =~= ones(bm.bits()).skip(count as int));
        }
    }
}

/// Walks the spans that the set bits of `bm` delimit and returns the bounds
/// of the `n`-th one, scanning from position 0; `None` if fewer than `n + 1`
/// bits are set.
pub fn find_nth_span<T: Bitmap>(bm: &T, n: usize) -> (r: Option<(usize, usize)>)
    ensures
        match r {
            Some(p) => {
                let os = ones(bm.bits());
                &&& (n as int) < os.len()
                &&& p.0 as int == span_start(os, n as int)
                &&& p.1 as int == os[n as int] + 1
            },
            None => n as int >= ones(bm.bits()).len(),
        },
{
    let w = T::bitsize();
    let mut value: T = *bm;
    let mut start: usize = 0;
    let mut count: usize = 0;
    proof {
        bm.bits_len();
        lemma_ones_props(bm.bits());
    }
    loop
        invariant
            value.bits().len() == T::width(),
            w as nat == T::width(),
            count <= n,
            count as nat <= ones(bm.bits()).len(),
            ones(bm.bits()).len() <= T::width(),
            forall|k: int|
                0 <= k < ones(bm.bits()).len() ==> 0 <= #[trigger] ones(bm.bits())[k]
                    < T::width(),
            ones(value.bits()) == ones(bm.bits()).skip(count as int),
            start as int == span_start(ones(bm.bits()), count as int),
            start <= w,
        decreases ones(value.bits()).len(),
    {
        let lz = value.leading_zeros();
        proof {
            value.bits_len();
            lemma_leading_zeros_ones(value.bits(), lz as int);
        }
        if lz >= w {
            return None;
        }
        if count == n {
            return Some((start, lz + 1));
        }
        let ghost ob = value.bits();
        proof {
            lemma_ones_unset_first(ob, lz as int);
        }
        value.unset(lz);
        start = lz + 1;
        count = count + 1;
        proof {
            assert(ones(value.bits()) =~= ones(bm.bits()).skip(count as int));
        }
    }
}

/// Basic facts about `ones`: every listed index is a set bit inside the
/// sequence, the list is strictly increasing, and it mentions every set bit.
pub proof fn lemma_ones_props(s: Seq<bool>)
    ensures
        ones(s).len() <= s.len(),
        forall|k: int| 0 <= k < ones(s).len() ==> 0 <= #[trigger] ones(s)[k] < s.len(),
        forall|k: int| 0 <= k < ones(s).len() ==> s[ones(s)[k]],
        forall|k1: int, k2: int|
            0 <= k1 < k2 < ones(s).len() ==> #[trigger] ones(s)[k1] < #[trigger] ones(s)[k2],
        forall|i: int|
            0 <= i < s.len() && s[i] ==> exists|k: int|
                0 <= k < ones(s).len() && #[trigger] ones(s)[k] == i,
    decreases s.len(),
{
    if s.len() > 0 {
        let d = s.drop_last();
        lemma_ones_props(d);
        assert forall|i: int|
            0 <= i < s.len() && s[i] implies exists|k: int|
            0 <= k < ones(s).len() && #[trigger] ones(s)[k] == i by {
            if i < s.len() - 1 {
                assert(d[i] == s[i]);
                let k = choose|k: int| 0 <= k < ones(d).len() && #[trigger] ones(d)[k] == i;
                assert(ones(s)[k] == i);
            } else {
                assert(ones(s)[ones(s).len() - 1] == i);
            }
        }
    }
}

/// A bit sequence with no set bit has an empty `ones` list, and conversely.
pub proof fn lemma_ones_empty(s: Seq<bool>)
    ensures
        (forall|i: int| 0 <= i < s.len() ==> !s[i]) ==> ones(s).len() == 0,
        ones(s).len() == 0 ==> (forall|i: int| 0 <= i < s.len() ==> !s[i]),
    decreases s.len(),
{
    lemma_ones_props(s);
    if s.len() > 0 {
        lemma_ones_empty(s.drop_last());
        if forall|i: int| 0 <= i < s.len() ==> !s[i] {
            assert(forall|i: int| 0 <= i < s.drop_last().len() ==> !s.drop_last()[i]);
            assert(!s.last());
        }
    }
}

/// Setting a bit above every currently set bit appends its position to `ones`.
pub proof fn lemma_ones_set_above(s: Seq<bool>, i: int)
    requires
        0 <= i < s.len(),
        !s[i],
        forall|k: int| 0 <= k < ones(s).len() ==> #[trigger] ones(s)[k] < i,
    ensures
        ones(s.update(i, true)) == ones(s).push(i),
    decreases s.len(),
{
    let t = s.update(i, true);
    lemma_ones_props(s);
    if i == s.len() - 1 {
        assert(t.drop_last() =~= s.drop_last());
        assert(t.last());
        assert(!s.last());
        assert(ones(t) =~= ones(s).push(i));
    } else {
        // a set bit at the last position would contradict the bound
        if s.last() {
            assert(ones(s)[ones(s).len() - 1] == s.len() - 1);
            assert(false);
        }
        assert(t.drop_last() =~= s.drop_last().update(i, true));
        assert(forall|k: int|
            0 <= k < ones(s.drop_last()).len() ==> #[trigger] ones(s.drop_last())[k] < i);
        lemma_ones_set_above(s.drop_last(), i);
        assert(!t.last());
        assert(ones(t) == ones(s.drop_last()).push(i));
        assert(ones(t) =~= ones(s).push(i));
    }
}

/// Clearing the lowest-positioned set bit drops the first entry of `ones`.
pub proof fn lemma_ones_unset_first(s: Seq<bool>, i: int)
    requires
        0 <= i < s.len(),
        s[i],
        forall|j: int| 0 <= j < i ==> !s[j],
    ensures
        ones(s).len() > 0,
        ones(s)[0] == i,
        ones(s.update(i, false)) == ones(s).drop_first(),
    decreases s.len(),
{
    let t = s.update(i, false);
    lemma_ones_props(s);
    assert(exists|k: int| 0 <= k < ones(s).len() && #[trigger] ones(s)[k] == i);
    // the first entry is a set position, and no set position is below i
    assert(s[ones(s)[0]]);
    assert(ones(s)[0] >= i);
    let kw = choose|k: int| 0 <= k < ones(s).len() && #[trigger] ones(s)[k] == i;
    assert(ones(s)[0] <= ones(s)[kw]);
    assert(ones(s)[0] == i);
    if i == s.len() - 1 {
        // i is both the first and the last position: every other bit is clear
        assert(forall|j: int| 0 <= j < t.len() ==> !t[j]);
        lemma_ones_empty(t);
        lemma_ones_empty(s.drop_last());
        assert(ones(s) =~= ones(s.drop_last()).push(i));
        assert(ones(t) =~= ones(s).drop_first());
    } else {
        let d = s.drop_last();
        assert(d[i] == s[i]);
        lemma_ones_unset_first(d, i);
        assert(t.drop_last() =~= d.update(i, false));
        if s.last() {
            assert(t.last());
            assert(ones(t) == ones(d.update(i, false)).push(s.len() - 1));
            assert(ones(s) == ones(d).push(s.len() - 1));
            assert(ones(d).len() > 0);
            assert(ones(t) =~= ones(s).drop_first());
        } else {
            assert(!t.last());
            assert(ones(t) =~= ones(s).drop_first());
        }
    }
}

/// The characterization that `leading_zeros` gives identifies the first entry
/// of `ones`, or shows the list empty.
pub proof fn lemma_leading_zeros_ones(s: Seq<bool>, r: int)
    requires
        0 <= r <= s.len(),
        forall|j: int| 0 <= j < r ==> !s[j],
        r < s.len() ==> s[r],
    ensures
        ones(s).len() == 0 <==> r == s.len(),
        ones(s).len() > 0 ==> ones(s)[0] == r,
{
    lemma_ones_props(s);
    lemma_ones_empty(s);
    if r < s.len() {
        assert(exists|k: int| 0 <= k < ones(s).len() && #[trigger] ones(s)[k] == r);
        let kw = choose|k: int| 0 <= k < ones(s).len() && #[trigger] ones(s)[k] == r;
        assert(s[ones(s)[0]]);
        assert(ones(s)[0] >= r);
        assert(ones(s)[0] <= ones(s)[kw]);
    }
}

/// The characterization that `trailing_zeros` gives identifies the last entry
/// of `ones`, or shows the list empty.
pub proof fn lemma_trailing_zeros_ones(s: Seq<bool>, r: int)
    requires
        0 <= r <= s.len(),
        forall|j: int| s.len() - r <= j < s.len() ==> !s[j],
        r < s.len() ==> s[s.len() - 1 - r],
    ensures
        ones(s).len() == 0 <==> r == s.len(),
        ones(s).len() > 0 ==> ones(s)[ones(s).len() - 1] == s.len() - 1 - r,
{
    lemma_ones_props(s);
    lemma_ones_empty(s);
    if r < s.len() {
        let p = s.len() - 1 - r;
        assert(exists|k: int| 0 <= k < ones(s).len() && #[trigger] ones(s)[k] == p);
        let kw = choose|k: int| 0 <= k < ones(s).len() && #[trigger] ones(s)[k] == p;
        let last = ones(s).len() - 1;
        assert(s[ones(s)[last]]);
        assert(ones(s)[last] <= p);
        assert(ones(s)[kw] <= ones(s)[last]);
    }
}

} // verus!
