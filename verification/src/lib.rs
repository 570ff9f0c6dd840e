//! Generator for cross-language data-interchange bindings.
//!
//! A schema tree — modules containing records (structs) and tagged unions
//! (enums) — is turned into Swift source text: one declaration per item plus
//! the encode/decode logic implementing the wire conventions (a keyed
//! dictionary for records, a tagged positional token stream for unions).
//! The `codec` module models those wire conventions directly and proves the
//! round-trip laws they are designed to satisfy.

pub mod codec;
pub mod codegen;
pub mod schema;
