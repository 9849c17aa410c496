//! Editor settings consumed, not computed, by the core.

use vstd::prelude::*;

verus! {

/// Configuration values for the editor widget.
pub struct Settings {
    /// Width in pixels of the left-hand gutter holding line numbers.
    pub line_number_width: usize,
}

impl Settings {
    /// The default settings.
    pub fn new() -> (s: Settings)
        ensures
            s.line_number_width == 95,
    {
        Settings { line_number_width: 95 }
    }
}

} // verus!
