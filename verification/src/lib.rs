//! A password-breach lookup library built around the k-anonymity range
//! protocol: a candidate password is hashed with SHA-1, the digest is split
//! into a five-character public prefix and a thirty-five-character private
//! suffix, only the prefix is ever put into a query, and the occurrence count
//! is recovered locally by matching the suffix against the lines of the range
//! response.

pub mod digest;
pub mod input;
pub mod lookup;
pub mod report;
pub mod numbers;
pub mod text;
