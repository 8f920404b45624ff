//! Generation of memory-safe bindings to foreign classes from compiled
//! artifacts.
//!
//! The crate has four parts. [`symbol`] encodes and decodes linker symbol
//! names under the Itanium mangling ABI. [`meta`] scans a static-library
//! archive for per-class size and alignment facts advertised through
//! specially named data symbols. [`cpp`] parses a small class-declaration
//! grammar and joins a declaration with the discovered facts to produce a
//! binding plan: storage layout, wrapper names and mangled entry points.
//! [`handle`] models the ownership protocol that generated wrappers follow:
//! storage is reserved, constructed at most once, and torn down exactly once.


pub mod cpp;
pub mod handle;
pub mod meta;
pub mod symbol;
