//! Editor-side position bookkeeping shared with the buffer layer.

use vstd::prelude::*;

verus! {

/// A zero-based cursor position in a buffer.
#[derive(Debug, Clone, Copy, PartialEq, Eq, Structural)]
pub struct CursorPosition {
    pub line: usize,
    pub column: usize,
}

impl Default for CursorPosition {
    /// The start of the buffer.
    fn default() -> (r: CursorPosition)
        ensures
            r.line == 0 && r.column == 0,
    {
        CursorPosition { line: 0, column: 0 }
    }
}

} // verus!
