//! Detection of near-duplicate contiguous blocks of lines within a document.
//!
//! The engine works over inclusive line ranges: starting from a seed pair of
//! single-line matches, it grows both ranges outward while an aggregate
//! similarity test keeps passing, memoizes every pair it grows to so that no
//! block is rediscovered from a second seed, and records the maximal pairs
//! it reaches. The similarity test itself is supplied by the caller as a
//! function value; the engine is indifferent to how it is computed.

pub mod engine;
pub mod range;
pub mod report;
