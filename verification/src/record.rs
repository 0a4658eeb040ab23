//! The completion record: what the kernel reports for one finished operation.

use vstd::prelude::*;

verus! {

/// One completion as the reactor sees it: the correlation tag that links it
/// back to a submitted operation, the signed result code of the operation,
/// and the completion flags. Immutable once produced.
#[derive(Clone, Copy, PartialEq, Eq, Structural, Debug)]
pub struct CompletionRecord {
    /// Correlation tag carried over from the submission.
    pub tag: u64,
    /// Signed result code; negative values are kernel-reported failures,
    /// which the core forwards without interpreting them.
    pub result: i32,
    /// Completion flags, opaque to the core.
    pub flags: u32,
}

} // verus!
