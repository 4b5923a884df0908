//! Source locations attached to analysis findings.
use vstd::prelude::*;

verus! {

/// A source span: unknown, or a byte range of one source file.
#[derive(Debug, Clone, Copy, PartialEq, Eq, Structural)]
pub enum Span {
    /// No source location is known.
    Unknown,
    /// The bytes `[start, end)` of source file `source`.
    Known { source: u32, start: u32, end: u32 },
}

} // verus!
