//! Associative containers whose keys are regular-expression patterns: a
//! lookup by a concrete key returns every value whose pattern matches it.
//!
//! Two variants share one design: [`string::RegexMap`] matches Unicode text
//! keys and [`bytes::RegexMap`] matches arbitrary byte-sequence keys. Both
//! compile their patterns once, at construction, into a single multi-pattern
//! matcher supplied by the `regex` crate.
use vstd::prelude::*;

pub mod bytes;
pub mod matching;
pub mod string;

pub use string::RegexMap;

verus! {

/// Why a set of pattern expressions failed to compile.
///
/// Construction is the only fallible operation of the containers: lookups
/// are total over every key of their alphabet.
#[derive(Debug, PartialEq, Eq)]
pub enum PatternError {
    /// A pattern expression is not valid regular-expression syntax. The
    /// string describes which pattern failed and why.
    Syntax(String),
    /// The patterns compiled to a program larger than the engine's size
    /// limit; the argument is that limit in bytes.
    CompiledTooBig(usize),
    /// The engine reported a failure of a kind it does not name.
    Unknown,
}

} // verus!
