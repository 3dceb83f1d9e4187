//! Programming katas with machine-checked contracts: a packed bit vector,
//! a Bloom filter built on it, binary searches, a column parser for tabular
//! text and an anagram counter.

pub mod bitvec;
pub mod chop;
pub mod kata2;
pub mod kata4;
pub mod kata5;
pub mod kata6;
pub mod text;
