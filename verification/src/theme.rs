//! Color theme: a fixed set of RGBA colors keyed by semantic role.

use vstd::prelude::*;

verus! {

/// RGBA colors for every semantic role the renderer distinguishes.
/// Immutable during a render pass.
pub struct Theme {
    pub background: [u8; 4],
    pub line_numbers: [u8; 4],
    pub line_numbers_bg: [u8; 4],

    pub text: [u8; 4],
    pub cursor: [u8; 4],

    pub identifier: [u8; 4],
    pub number: [u8; 4],
    pub keywords: [u8; 4],
    pub brackets: [u8; 4],
    pub comments: [u8; 4],
    pub string: [u8; 4],

    pub error: [u8; 4],
}

impl Theme {
    /// The default dark theme.
    pub fn new() -> (t: Theme)
        ensures
            t.background == [34u8, 34u8, 36u8, 255u8],
            t.line_numbers == [160u8, 160u8, 160u8, 255u8],
            t.line_numbers_bg == [30u8, 30u8, 32u8, 255u8],
            t.text == [255u8, 255u8, 255u8, 255u8],
            t.cursor == [170u8, 170u8, 170u8, 255u8],
            t.identifier == [120u8, 214u8, 255u8, 255u8],
            t.number == [159u8, 197u8, 146u8, 255u8],
            t.keywords == [45u8, 133u8, 200u8, 255u8],
            t.brackets == [226u8, 73u8, 146u8, 212u8],
            t.comments == [69u8, 128u8, 56u8, 212u8],
            t.string == [197u8, 117u8, 92u8, 212u8],
            t.error == [237u8, 55u8, 54u8, 255u8],
    {
        Theme {
            background: [34, 34, 36, 255],
            line_numbers: [160, 160, 160, 255],
            line_numbers_bg: [30, 30, 32, 255],

            text: [255, 255, 255, 255],
            cursor: [170, 170, 170, 255],

            identifier: [120, 214, 255, 255],
            number: [159, 197, 146, 255],
            keywords: [45, 133, 200, 255],
            brackets: [226, 73, 146, 212],
            comments: [69, 128, 56, 212],
            string: [197, 117, 92, 212],

            error: [237, 55, 54, 255],
        }
    }
}

} // verus!
