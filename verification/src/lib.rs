//! Verified core of a license-header tool: it checks that a source file
//! begins with a header generated from a configurable template — with
//! `{author}` and `{year}` placeholders and per-language comment prefixes —
//! and computes where and how a missing header must be inserted, honouring
//! an optional shebang line and blank-line conventions around the header.
//!
//! The library works on plain bytes and makes no calls of its own to the
//! file system, the clock or version control: callers read the file, name
//! the extension, and resolve author and year; the library decides
//! everything else, and its contracts pin down exactly what it decides.

use vstd::prelude::*;

pub mod author;
pub mod config;
pub mod errors;
pub mod laws;
pub mod lint;
pub mod pattern;
pub mod text;
pub mod writer;

verus! {

} // verus!
