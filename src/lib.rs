//! Property-based test-input generation with integrated shrinking.
//!
//! A generator turns a splittable random source and a size into a lazy shrink tree: a value
//! together with the data from which its one-step shrinks are computed again on demand.
//! Composite generators take values out of other generators through a chooser, which records
//! per call site how far each one may still shrink; the tree of the composite value follows.

pub mod gen;
pub mod nondet;
pub mod nonempty;
pub mod random;
pub mod state;
pub mod tree;
