//! A fixed-capacity set of the integers `0..256`, packed into four 64-bit words.
//!
//! [`BitSet256`] offers membership tests, bulk operations on ranges and on the
//! whole set, the Boolean combinators `&`, `|` and `^`, and ordered search:
//! the first and the last member, the next member after an index, and the
//! member of a given rank. Every operation carries a contract over the set
//! of members, a `Set<int>`, and its code is verified against that contract.

pub mod bitset;
pub mod laws;
pub mod model;
pub mod ops;
pub mod order;
pub mod range;
pub mod search;
pub mod word;

pub use bitset::BitSet256;
