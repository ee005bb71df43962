use vstd::prelude::*;

verus! {

/// Zero-sized marker naming the 8-byte alignment tier.
#[derive(PartialEq, Eq, PartialOrd, Ord, Copy, Clone, Debug, Hash)]
pub struct Align8;

/// Zero-sized marker naming the 16-byte alignment tier.
#[derive(PartialEq, Eq, PartialOrd, Ord, Copy, Clone, Debug, Hash)]
pub struct Align16;

/// Zero-sized marker naming the 32-byte alignment tier.
#[derive(PartialEq, Eq, PartialOrd, Ord, Copy, Clone, Debug, Hash)]
pub struct Align32;

/// Zero-sized marker naming the 64-byte alignment tier.
#[derive(PartialEq, Eq, PartialOrd, Ord, Copy, Clone, Debug, Hash)]
pub struct Align64;

/// Zero-sized marker naming the 128-byte alignment tier.
#[derive(PartialEq, Eq, PartialOrd, Ord, Copy, Clone, Debug, Hash)]
pub struct Align128;

} // verus!
