//! Value representation and conversion layer for an embedded dynamic-language
//! runtime: a two-tier integer representation (inline machine-width integers
//! and boxed arbitrary-precision integers), a native-to-dynamic conversion
//! protocol, a freeze operation moving object graphs into a read-only arena,
//! and an immutable, order-preserving, string-keyed record type built on top.

pub mod int_or_big;
pub mod value;
pub mod ty;
pub mod heap;
pub mod convert;
pub mod structs;
pub mod unpack;
pub mod freeze;
pub mod json;
pub mod cmp;
pub mod hash;
pub mod display;
pub mod ord;
