use vstd::prelude::*;

use crate::bitmap::Bitmap;

verus! {

/// Marker type for which [`BitmapForLength`] instances are provided.
pub struct BitmapMarker;

/// Associates a bounded-string capacity `N` with a bit-mask wide enough for a
/// vector of capacity `N`.
pub trait BitmapForLength<const N: usize> {
    /// The bit-mask type chosen for capacity `N`.
    type Output: Bitmap;

    /// The chosen bit-mask is wide enough for a vector of capacity `N`.
    proof fn wide_enough()
        ensures
            <Self::Output as Bitmap>::width() >= N,
    ;
}

impl BitmapForLength<7> for BitmapMarker {
    proof fn wide_enough() {
    }

    type Output = u8;
}

impl BitmapForLength<15> for BitmapMarker {
    proof fn wide_enough() {
    }

    type Output = u16;
}

impl BitmapForLength<31> for BitmapMarker {
    proof fn wide_enough() {
    }

    type Output = u32;
}

impl BitmapForLength<63> for BitmapMarker {
    proof fn wide_enough() {
    }

    type Output = u64;
}

impl BitmapForLength<127> for BitmapMarker {
    proof fn wide_enough() {
    }

    type Output = u128;
}

/// Resolves the bit-mask type for the given capacity `N`.
pub type BitmapType<const N: usize> = <BitmapMarker as BitmapForLength<N>>::Output;

} // verus!
