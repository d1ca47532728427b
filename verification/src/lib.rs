//! Canonical record model for an object-storage metadata system: file-object
//! and directory records, a lossless persistence codec over a structured
//! textual format, and a generative builder for structurally valid instances.
//!
//! The external format is a tree of string-keyed maps, sequences, strings
//! and unsigned integers (`json`), with a canonical text form written by the
//! emitters and read back by a strict parser (`parse`).  The record types
//! and their conversions live in `records`, the storage codec in `codec`,
//! the identifier shapes in `ident`, and the random-instance builder in
//! `builder`.

pub mod builder;
pub mod codec;
pub mod ident;
pub mod json;
pub mod parse;
pub mod records;
