use vstd::prelude::*;

use crate::bitmap::Bitmap;

verus! {

impl Bitmap for u8 {
    open spec fn bits(&self) -> Seq<bool> {
        Seq::new(8, |k: int| (*self >> (7 - k) as u8) & 1u8 == 1u8)
    }

    open spec fn width() -> nat {
        8
    }

    proof fn bits_len(&self) {
    }

    fn zero() -> (r: Self) {
        proof {
            assert(forall|j: u8| #[trigger] ((0u8 >> j) & 1u8) == 0u8) by (bit_vector);
        }
        0u8
    }

    fn bitsize() -> (r: usize) {
        8
    }

    fn set(&mut self, offset: usize) {
        let sh: u8 = (7 - offset) as u8;
        let ghost x: u8 = *self;
        *self = *self | (1u8 << sh);
        proof {
            assert forall|k: int| 0 <= k < 8 implies #[trigger] self.bits()[k] == (if k
                == offset as int {
                true
            } else {
                x.bits()[k]
            }) by {
                let j: u8 = (7 - k) as u8;
                assert(((x | (1u8 << sh)) >> j) & 1u8 == (if j == sh {
                    1u8
                } else {
                    (x >> j) & 1u8
                })) by (bit_vector)
                    requires
                        j < 8,
                        sh < 8,
                ;
            }
            assert(self.bits() =~= x.bits().update(offset as int, true));
        }
    }

    fn unset(&mut self, offset: usize) {
        let sh: u8 = (7 - offset) as u8;
        let ghost x: u8 = *self;
        *self = *self & !(1u8 << sh);
        proof {
            assert forall|k: int| 0 <= k < 8 implies #[trigger] self.bits()[k] == (if k
                == offset as int {
                false
            } else {
                x.bits()[k]
            }) by {
                let j: u8 = (7 - k) as u8;
                assert(((x & !(1u8 << sh)) >> j) & 1u8 == (if j == sh {
                    0u8
                } else {
                    (x >> j) & 1u8
                })) by (bit_vector)
                    requires
                        j < 8,
                        sh < 8,
                ;
            }
            assert(self.bits() =~= x.bits().update(offset as int, false));
        }
    }

    fn leading_zeros(&self) -> (r: usize) {
        let r = u8::leading_zeros(*self) as usize;
        proof {
            vstd::std_specs::bits::axiom_u8_leading_zeros(*self);
            assert(forall|a: u8, b: u8| #[trigger] ((a >> b) & 1u8) < 2u8) by (bit_vector);
            let lz = vstd::std_specs::bits::u8_leading_zeros(*self) as int;
            assert forall|j: int| 0 <= j < lz implies !self.bits()[j] by {
                let sh: u8 = (7 - j) as u8;
                assert((*self >> sh) & 1u8 == 0u8);
            }
            if lz < 8 {
                assert((*self >> ((7 - lz) as u8)) & 1u8 != 0u8);
                assert(self.bits()[lz]);
            }
        }
        r
    }

    fn trailing_zeros(&self) -> (r: usize) {
        let r = u8::trailing_zeros(*self) as usize;
        proof {
            vstd::std_specs::bits::axiom_u8_trailing_zeros(*self);
            let tz = vstd::std_specs::bits::u8_trailing_zeros(*self) as int;
            assert forall|j: int| 8 - tz <= j < 8 implies !self.bits()[j] by {
                let sh: u8 = (7 - j) as u8;
                assert((*self >> sh) & 1u8 == 0u8);
            }
            if tz < 8 {
                assert((*self >> (tz as u8)) & 1u8 == 1u8);
                assert(self.bits()[8 - 1 - tz]);
            }
        }
        r
    }
}

impl Bitmap for u16 {
    open spec fn bits(&self) -> Seq<bool> {
        Seq::new(16, |k: int| (*self >> (15 - k) as u16) & 1u16 == 1u16)
    }

    open spec fn width() -> nat {
        16
    }

    proof fn bits_len(&self) {
    }

    fn zero() -> (r: Self) {
        proof {
            assert(forall|j: u16| #[trigger] ((0u16 >> j) & 1u16) == 0u16) by (bit_vector);
        }
        0u16
    }

    fn bitsize() -> (r: usize) {
        16
    }

    fn set(&mut self, offset: usize) {
        let sh: u16 = (15 - offset) as u16;
        let ghost x: u16 = *self;
        *self = *self | (1u16 << sh);
        proof {
            assert forall|k: int| 0 <= k < 16 implies #[trigger] self.bits()[k] == (if k
                == offset as int {
                true
            } else {
                x.bits()[k]
            }) by {
                let j: u16 = (15 - k) as u16;
                assert(((x | (1u16 << sh)) >> j) & 1u16 == (if j == sh {
                    1u16
                } else {
                    (x >> j) & 1u16
                })) by (bit_vector)
                    requires
                        j < 16,
                        sh < 16,
                ;
            }
            assert(self.bits() =~= x.bits().update(offset as int, true));
        }
    }

    fn unset(&mut self, offset: usize) {
        let sh: u16 = (15 - offset) as u16;
        let ghost x: u16 = *self;
        *self = *self & !(1u16 << sh);
        proof {
            assert forall|k: int| 0 <= k < 16 implies #[trigger] self.bits()[k] == (if k
                == offset as int {
                false
            } else {
                x.bits()[k]
            }) by {
                let j: u16 = (15 - k) as u16;
                assert(((x & !(1u16 << sh)) >> j) & 1u16 == (if j == sh {
                    0u16
                } else {
                    (x >> j) & 1u16
                })) by (bit_vector)
                    requires
                        j < 16,
                        sh < 16,
                ;
            }
            assert(self.bits() =~= x.bits().update(offset as int, false));
        }
    }

    fn leading_zeros(&self) -> (r: usize) {
        let r = u16::leading_zeros(*self) as usize;
        proof {
            vstd::std_specs::bits::axiom_u16_leading_zeros(*self);
            assert(forall|a: u16, b: u16| #[trigger] ((a >> b) & 1u16) < 2u16) by (bit_vector);
            let lz = vstd::std_specs::bits::u16_leading_zeros(*self) as int;
            assert forall|j: int| 0 <= j < lz implies !self.bits()[j] by {
                let sh: u16 = (15 - j) as u16;
                assert((*self >> sh) & 1u16 == 0u16);
            }
            if lz < 16 {
                assert((*self >> ((15 - lz) as u16)) & 1u16 != 0u16);
                assert(self.bits()[lz]);
            }
        }
        r
    }

    fn trailing_zeros(&self) -> (r: usize) {
        let r = u16::trailing_zeros(*self) as usize;
        proof {
            vstd::std_specs::bits::axiom_u16_trailing_zeros(*self);
            let tz = vstd::std_specs::bits::u16_trailing_zeros(*self) as int;
            assert forall|j: int| 16 - tz <= j < 16 implies !self.bits()[j] by {
                let sh: u16 = (15 - j) as u16;
                assert((*self >> sh) & 1u16 == 0u16);
            }
            if tz < 16 {
                assert((*self >> (tz as u16)) & 1u16 == 1u16);
                assert(self.bits()[16 - 1 - tz]);
            }
        }
        r
    }
}


impl Bitmap for u32 {
    open spec fn bits(&self) -> Seq<bool> {
        Seq::new(32, |k: int| (*self >> (31 - k) as u32) & 1u32 == 1u32)
    }

    open spec fn width() -> nat {
        32
    }

    proof fn bits_len(&self) {
    }

    fn zero() -> (r: Self) {
        proof {
            assert(forall|j: u32| #[trigger] ((0u32 >> j) & 1u32) == 0u32) by (bit_vector);
        }
        0u32
    }

    fn bitsize() -> (r: usize) {
        32
    }

    fn set(&mut self, offset: usize) {
        let sh: u32 = (31 - offset) as u32;
        let ghost x: u32 = *self;
        *self = *self | (1u32 << sh);
        proof {
            assert forall|k: int| 0 <= k < 32 implies #[trigger] self.bits()[k] == (if k
                == offset as int {
                true
            } else {
                x.bits()[k]
            }) by {
                let j: u32 = (31 - k) as u32;
                assert(((x | (1u32 << sh)) >> j) & 1u32 == (if j == sh {
                    1u32
                } else {
                    (x >> j) & 1u32
                })) by (bit_vector)
                    requires
                        j < 32,
                        sh < 32,
                ;
            }
            assert(self.bits() =~= x.bits().update(offset as int, true));
        }
    }

    fn unset(&mut self, offset: usize) {
        let sh: u32 = (31 - offset) as u32;
        let ghost x: u32 = *self;
        *self = *self & !(1u32 << sh);
        proof {
            assert forall|k: int| 0 <= k < 32 implies #[trigger] self.bits()[k] == (if k
                == offset as int {
                false
            } else {
                x.bits()[k]
            }) by {
                let j: u32 = (31 - k) as u32;
                assert(((x & !(1u32 << sh)) >> j) & 1u32 == (if j == sh {
                    0u32
                } else {
                    (x >> j) & 1u32
                })) by (bit_vector)
                    requires
                        j < 32,
                        sh < 32,
                ;
            }
            assert(self.bits() =~= x.bits().update(offset as int, false));
        }
    }

    fn leading_zeros(&self) -> (r: usize) {
        let r = u32::leading_zeros(*self) as usize;
        proof {
            vstd::std_specs::bits::axiom_u32_leading_zeros(*self);
            assert(forall|a: u32, b: u32| #[trigger] ((a >> b) & 1u32) < 2u32) by (bit_vector);
            let lz = vstd::std_specs::bits::u32_leading_zeros(*self) as int;
            assert forall|j: int| 0 <= j < lz implies !self.bits()[j] by {
                let sh: u32 = (31 - j) as u32;
                assert((*self >> sh) & 1u32 == 0u32);
            }
            if lz < 32 {
                assert((*self >> ((31 - lz) as u32)) & 1u32 != 0u32);
                assert(self.bits()[lz]);
            }
        }
        r
    }

    fn trailing_zeros(&self) -> (r: usize) {
        let r = u32::trailing_zeros(*self) as usize;
        proof {
            vstd::std_specs::bits::axiom_u32_trailing_zeros(*self);
            let tz = vstd::std_specs::bits::u32_trailing_zeros(*self) as int;
            assert forall|j: int| 32 - tz <= j < 32 implies !self.bits()[j] by {
                let sh: u32 = (31 - j) as u32;
                assert((*self >> sh) & 1u32 == 0u32);
            }
            if tz < 32 {
                assert((*self >> (tz as u32)) & 1u32 == 1u32);
                assert(self.bits()[32 - 1 - tz]);
            }
        }
        r
    }
}


impl Bitmap for u64 {
    open spec fn bits(&self) -> Seq<bool> {
        Seq::new(64, |k: int| (*self >> (63 - k) as u64) & 1u64 == 1u64)
    }

    open spec fn width() -> nat {
        64
    }

    proof fn bits_len(&self) {
    }

    fn zero() -> (r: Self) {
        proof {
            assert(forall|j: u64| #[trigger] ((0u64 >> j) & 1u64) == 0u64) by (bit_vector);
        }
        0u64
    }

    fn bitsize() -> (r: usize) {
        64
    }

    fn set(&mut self, offset: usize) {
        let sh: u64 = (63 - offset) as u64;
        let ghost x: u64 = *self;
        *self = *self | (1u64 << sh);
        proof {
            assert forall|k: int| 0 <= k < 64 implies #[trigger] self.bits()[k] == (if k
                == offset as int {
                true
            } else {
                x.bits()[k]
            }) by {
                let j: u64 = (63 - k) as u64;
                assert(((x | (1u64 << sh)) >> j) & 1u64 == (if j == sh {
                    1u64
                } else {
                    (x >> j) & 1u64
                })) by (bit_vector)
                    requires
                        j < 64,
                        sh < 64,
                ;
            }
            assert(self.bits() =~= x.bits().update(offset as int, true));
        }
    }

    fn unset(&mut self, offset: usize) {
        let sh: u64 = (63 - offset) as u64;
        let ghost x: u64 = *self;
        *self = *self & !(1u64 << sh);
        proof {
            assert forall|k: int| 0 <= k < 64 implies #[trigger] self.bits()[k] == (if k
                == offset as int {
                false
            } else {
                x.bits()[k]
            }) by {
                let j: u64 = (63 - k) as u64;
                assert(((x & !(1u64 << sh)) >> j) & 1u64 == (if j == sh {
                    0u64
                } else {
                    (x >> j) & 1u64
                })) by (bit_vector)
                    requires
                        j < 64,
                        sh < 64,
                ;
            }
            assert(self.bits() =~= x.bits().update(offset as int, false));
        }
    }

    fn leading_zeros(&self) -> (r: usize) {
        let r = u64::leading_zeros(*self) as usize;
        proof {
            vstd::std_specs::bits::axiom_u64_leading_zeros(*self);
            assert(forall|a: u64, b: u64| #[trigger] ((a >> b) & 1u64) < 2u64) by (bit_vector);
            let lz = vstd::std_specs::bits::u64_leading_zeros(*self);
            assert forall|j: int| 0 <= j < lz implies !self.bits()[j] by {
                let sh: u64 = (63 - j) as u64;
                assert((*self >> sh) & 1u64 == 0u64);
            }
            if lz < 64 {
                assert((*self >> ((63 - lz) as u64)) & 1u64 != 0u64);
                assert(self.bits()[lz]);
            }
        }
        r
    }

    fn trailing_zeros(&self) -> (r: usize) {
        let r = u64::trailing_zeros(*self) as usize;
        proof {
            vstd::std_specs::bits::axiom_u64_trailing_zeros(*self);
            let tz = vstd::std_specs::bits::u64_trailing_zeros(*self) as int;
            assert forall|j: int| 64 - tz <= j < 64 implies !self.bits()[j] by {
                let sh: u64 = (63 - j) as u64;
                assert((*self >> sh) & 1u64 == 0u64);
            }
            if tz < 64 {
                assert((*self >> (tz as u64)) & 1u64 == 1u64);
                assert(self.bits()[64 - 1 - tz]);
            }
        }
        r
    }
}


/// Each bit of a 128-bit value is the matching bit of its upper or lower
/// 64-bit half.
proof fn lemma_u128_halves(x: u128)
    ensures
        forall|k: int| 0 <= k < 64 ==> #[trigger] x.bits()[k] == ((x >> 64) as u64).bits()[k],
        forall|k: int| 64 <= k < 128 ==> #[trigger] x.bits()[k] == (x as u64).bits()[k - 64],
{
    assert forall|k: int| 0 <= k < 64 implies #[trigger] x.bits()[k]
        == ((x >> 64) as u64).bits()[k] by {
        let j: u64 = (63 - k) as u64;
        assert(((((x >> 64) as u64) >> j) & 1u64 == 1u64) == (((x >> ((j + 64) as u128)) & 1u128)
            == 1u128)) by (bit_vector)
            requires
                j < 64,
        ;
        assert((127 - k) as u128 == (j + 64) as u128);
    }
    assert forall|k: int| 64 <= k < 128 implies #[trigger] x.bits()[k]
        == (x as u64).bits()[k - 64] by {
        let j: u64 = (127 - k) as u64;
        assert((((x as u64) >> j) & 1u64 == 1u64) == (((x >> (j as u128)) & 1u128) == 1u128))
            by (bit_vector)
            requires
                j < 64,
        ;
        assert((127 - k) as u128 == j as u128);
        assert((63 - (k - 64)) as u64 == j);
    }
}

impl Bitmap for u128 {
    open spec fn bits(&self) -> Seq<bool> {
        Seq::new(128, |k: int| (*self >> (127 - k) as u128) & 1u128 == 1u128)
    }

    open spec fn width() -> nat {
        128
    }

    proof fn bits_len(&self) {
    }

    fn zero() -> (r: Self) {
        proof {
            assert(forall|j: u128| #[trigger] ((0u128 >> j) & 1u128) == 0u128) by (bit_vector);
        }
        0u128
    }

    fn bitsize() -> (r: usize) {
        128
    }

    fn set(&mut self, offset: usize) {
        let sh: u128 = (127 - offset) as u128;
        let ghost x: u128 = *self;
        *self = *self | (1u128 << sh);
        proof {
            assert forall|k: int| 0 <= k < 128 implies #[trigger] self.bits()[k] == (if k
                == offset as int {
                true
            } else {
                x.bits()[k]
            }) by {
                let j: u128 = (127 - k) as u128;
                assert(((x | (1u128 << sh)) >> j) & 1u128 == (if j == sh {
                    1u128
                } else {
                    (x >> j) & 1u128
                })) by (bit_vector)
                    requires
                        j < 128,
                        sh < 128,
                ;
            }
            assert(self.bits() =~= x.bits().update(offset as int, true));
        }
    }

    fn unset(&mut self, offset: usize) {
        let sh: u128 = (127 - offset) as u128;
        let ghost x: u128 = *self;
        *self = *self & !(1u128 << sh);
        proof {
            assert forall|k: int| 0 <= k < 128 implies #[trigger] self.bits()[k] == (if k
                == offset as int {
                false
            } else {
                x.bits()[k]
            }) by {
                let j: u128 = (127 - k) as u128;
                assert(((x & !(1u128 << sh)) >> j) & 1u128 == (if j == sh {
                    0u128
                } else {
                    (x >> j) & 1u128
                })) by (bit_vector)
                    requires
                        j < 128,
                        sh < 128,
                ;
            }
            assert(self.bits() =~= x.bits().update(offset as int, false));
        }
    }

    fn leading_zeros(&self) -> (r: usize) {
        let hi = (*self >> 64) as u64;
        let lo = *self as u64;
        let r: usize = if hi != 0 {
            u64::leading_zeros(hi) as usize
        } else {
            64 + u64::leading_zeros(lo) as usize
        };
        proof {
            lemma_u128_halves(*self);
            vstd::std_specs::bits::axiom_u64_leading_zeros(hi);
            vstd::std_specs::bits::axiom_u64_leading_zeros(lo);
            assert(forall|a: u64, b: u64| #[trigger] ((a >> b) & 1u64) < 2u64) by (bit_vector);
            if hi != 0 {
                let lz = vstd::std_specs::bits::u64_leading_zeros(hi);
                assert forall|j: int| 0 <= j < lz implies !self.bits()[j] by {
                    let sh: u64 = (63 - j) as u64;
                    assert((hi >> sh) & 1u64 == 0u64);
                }
                assert((hi >> ((63 - lz) as u64)) & 1u64 != 0u64);
                assert(self.bits()[lz]);
            } else {
                let lz = vstd::std_specs::bits::u64_leading_zeros(lo);
                assert(forall|j: u64| #[trigger] ((0u64 >> j) & 1u64) == 0u64) by (bit_vector);
                assert forall|j: int| 0 <= j < 64 + lz implies !self.bits()[j] by {
                    if j < 64 {
                        let sh: u64 = (63 - j) as u64;
                        assert((hi >> sh) & 1u64 == 0u64);
                    } else {
                        let sh: u64 = (127 - j) as u64;
                        assert((lo >> sh) & 1u64 == 0u64);
                    }
                }
                if lz < 64 {
                    assert((lo >> ((63 - lz) as u64)) & 1u64 != 0u64);
                    assert(self.bits()[64 + lz]);
                }
            }
        }
        r
    }

    fn trailing_zeros(&self) -> (r: usize) {
        let hi = (*self >> 64) as u64;
        let lo = *self as u64;
        let r: usize = if lo != 0 {
            u64::trailing_zeros(lo) as usize
        } else {
            64 + u64::trailing_zeros(hi) as usize
        };
        proof {
            lemma_u128_halves(*self);
            vstd::std_specs::bits::axiom_u64_trailing_zeros(hi);
            vstd::std_specs::bits::axiom_u64_trailing_zeros(lo);
            if lo != 0 {
                let tz = vstd::std_specs::bits::u64_trailing_zeros(lo) as int;
                assert forall|j: int| 128 - tz <= j < 128 implies !self.bits()[j] by {
                    let sh: u64 = (127 - j) as u64;
                    assert((lo >> sh) & 1u64 == 0u64);
                }
                assert((lo >> (tz as u64)) & 1u64 == 1u64);
                assert((63 - (127 - tz - 64)) as u64 == tz as u64);
                assert(self.bits()[127 - tz]);
            } else {
                let tz = vstd::std_specs::bits::u64_trailing_zeros(hi) as int;
                assert(forall|j: u64| #[trigger] ((0u64 >> j) & 1u64) == 0u64) by (bit_vector);
                assert forall|j: int| 128 - (64 + tz) <= j < 128 implies !self.bits()[j] by {
                    if j >= 64 {
                        let sh: u64 = (127 - j) as u64;
                        assert((lo >> sh) & 1u64 == 0u64);
                    } else {
                        let sh: u64 = (63 - j) as u64;
                        assert((hi >> sh) & 1u64 == 0u64);
                    }
                }
                if tz < 64 {
                    assert((hi >> (tz as u64)) & 1u64 == 1u64);
                    assert((63 - (127 - (64 + tz))) as u64 == tz as u64);
                    assert(self.bits()[127 - (64 + tz)]);
                }
            }
        }
        r
    }
}

} // verus!

