//! Deterministic 32-byte identifiers for warp routes.
//!
//! The crate derives a warp route ID and a token ID from a pair of 20-byte
//! addresses and a decimals value by SHA-256 hash chaining over fixed byte
//! layouts, and renders identifiers as `0x`-prefixed hex text or as a bech32m
//! string with the prefix `token_`.

pub mod hex_string;
pub mod derivation;
pub mod bech32m;
