//! What a derived implementation reads and writes.
//!
//! A type that derives [`Arbitrary`](crate::arbitrary::Arbitrary) or
//! [`Dearbitrary`](crate::dearbitrary::Dearbitrary) is described by
//! [`DeriveInput`](input::DeriveInput). From it come plans: which field is read
//! or written how and in which order, which selector stands for which variant,
//! and which bounds the type parameters get.

pub mod bounds;
pub mod calls;
pub mod expand;
pub mod hinting;
pub mod input;
pub mod laws;
pub mod plans;
pub mod reading;
pub mod selector;
pub mod writing;
