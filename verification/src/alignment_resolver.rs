use vstd::prelude::*;

use crate::alignment::Align8;
use crate::alignment::Align16;
use crate::alignment::Align32;
use crate::alignment::Align64;
use crate::alignment::Align128;

verus! {

/// Marker type for which [`AlignmentForLength`] instances are provided.
pub struct AlignmentMarker;

/// Associates a bounded-string capacity `N` with a suitable alignment tag.
pub trait AlignmentForLength<const N: usize> {
    /// The alignment tag chosen for capacity `N`.
    type Output;
}

impl AlignmentForLength<7> for AlignmentMarker {
    type Output = Align8;
}

impl AlignmentForLength<15> for AlignmentMarker {
    type Output = Align16;
}

impl AlignmentForLength<31> for AlignmentMarker {
    type Output = Align32;
}

impl AlignmentForLength<63> for AlignmentMarker {
    type Output = Align64;
}

impl AlignmentForLength<127> for AlignmentMarker {
    type Output = Align128;
}

/// Resolves the alignment tag for the given capacity `N`.
pub type AlignmentType<const N: usize> = <AlignmentMarker as AlignmentForLength<N>>::Output;

} // verus!
