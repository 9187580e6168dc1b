//! A streaming byte transducer that repairs one escaping mismatch: a backslash
//! followed by the digit `0` stands for a NUL byte when an even number of further
//! backslashes (possibly none) comes immediately before that backslash.
//!
//! The rewrite is defined once, as a mathematical model over byte sequences
//! ([`model`]), and every executable function is proved against it.

pub mod laws;
pub mod model;
pub mod scan;
pub mod stream;
pub mod transducer;
