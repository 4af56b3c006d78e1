//! The typed errors a translation run can report. None of them is
//! recoverable mid-run: the driver stops at the first one and names the
//! source line it arose on.

use vstd::prelude::*;

verus! {

/// The kind of fault found in the source text.
#[derive(Clone, Copy, Debug, PartialEq, Eq, Structural)]
pub enum AsmErrorKind {
    /// A line that cannot be classified: an empty symbol or label body.
    Classification,
    /// A malformed dest/comp/jump split: a present but empty field.
    FieldSyntax,
    /// A dest, comp or jump text outside the fixed tables.
    UnknownMnemonic,
    /// A numeric literal or resolved address beyond the 15-bit range.
    AddressRange,
}

/// A fault together with the 1-based source line it was found on.
#[derive(Clone, Copy, Debug, PartialEq, Eq, Structural)]
pub struct AsmError {
    pub kind: AsmErrorKind,
    pub line: usize,
}

} // verus!
