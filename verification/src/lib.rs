//! Text-editing and rendering core of an embeddable code-editor widget.
//!
//! The library owns a mutable document, maps between pixel coordinates and
//! text coordinates, renders highlighted text into software pixel buffers,
//! and manages selection, cursor motion and undo/redo. Window plumbing,
//! font rasterization, lexical scanning and the system clipboard are
//! collaborators supplied by the host application.

pub mod theme;
pub mod settings;
pub mod undo;
pub mod document;
pub mod glyphs;
pub mod draw2d;
pub mod tokens;
pub mod editor;
mod clock;

use vstd::prelude::*;

verus! {

/// Named keys that the host forwards to the editor.
#[derive(PartialEq, Eq, Structural, Debug, Copy, Clone)]
pub enum WidgetKey {
    Escape,
    Return,
    Delete,
    Up,
    Right,
    Down,
    Left,
    Space,
    Tab,
}

} // verus!
