//! A Bloom filter over byte strings, probed by double hashing with MurmurHash2.

pub mod filter;
pub mod hash;
pub mod model;

pub use filter::{Bloom, BloomError};
pub use hash::murmurhash2;
