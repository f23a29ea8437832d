//! Bijective encodings between pairs of non-negative integers and single
//! non-negative integers, with their inverses.

pub mod codes;
pub mod column;
pub mod error;
pub mod expressions;
pub mod method;
pub mod pairing;
pub mod roots;
