//! A Bloom filter: a fixed-size bit array answering approximate set-membership
//! queries with false positives but no false negatives.
//!
//! Elements enter the library as 128-bit hash values. Each hash seeds a 128-bit
//! linear congruential generator whose outputs, reduced modulo the bit count,
//! give the bit positions of the element.
pub mod bitline;
pub mod error;
pub mod filter;
pub mod laws;
pub mod lcg;
