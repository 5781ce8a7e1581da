//! Derivation engine for compact integer codecs of field-less enumerations.
//!
//! Given the declaration of a closed, field-less enumeration with explicit or
//! implicit integer discriminants, this crate validates the declaration,
//! resolves the concrete discriminant of every variant, infers the narrowest
//! fixed-width integer representation compatible with the declared range, and
//! derives the semantics of the two generated procedures: `encode`, which maps
//! a variant to its discriminant reinterpreted in the chosen representation,
//! and `decode`, which maps such an integer back to a variant, falling back to
//! a designated catch-all variant or reporting a descriptive error.

pub mod codec;
pub mod numfmt;
pub mod parse;
pub mod repr;
pub mod resolve;
