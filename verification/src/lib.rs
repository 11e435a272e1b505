//! Structure-aware byte encodings: values are read out of raw bytes by
//! [`Arbitrary`] and written back by [`Dearbitrary`], so that what is written
//! reads back as the same value.

pub mod arbitrary;
pub mod calls;
pub mod collections;
pub mod contents;
pub mod dearbitrary;
pub mod derive;
pub mod endian;
pub mod framing;
pub mod guard;
pub mod integers;
pub mod layout;
pub mod pointers;
pub mod round_trip;
pub mod rows;
pub mod scalars;
pub mod separator;
pub mod sequences;
pub mod size_hint;
pub mod strings;
pub mod structured;
pub mod suffix;
pub mod sums;
pub mod tuples;
pub mod unstructured;
pub mod wire;

pub use crate::arbitrary::Arbitrary;
pub use crate::dearbitrary::Dearbitrary;
pub use crate::structured::Structured;
pub use crate::unstructured::{Error, Unstructured};
