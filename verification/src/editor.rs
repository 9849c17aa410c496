//! The editor widget itself: owns the document, cursor, selection, scroll
//! state, render surfaces, glyph cache and undo stack. All methods take and
//! return state through this struct; there are no process-wide globals.

use vstd::prelude::*;
use crate::document::{
    clamp_col, clamp_line, extract_spec, imin, line_len, line_start, offset_of, total_lines,
    walk_pos, chars_of_string, extract_chars, locate, string_from_chars,
};
use crate::glyphs::{GlyphCache, GlyphEntry, GlyphMetrics, advance_spec, metrics_wf};
use crate::settings::Settings;
use crate::theme::Theme;
use crate::undo::{UndoStack, stack_wf};
use crate::WidgetKey;
use crate::tokens::{Token, TokenKind, classify};
use crate::draw2d::{
    blend_rect, blend_slice_safe, blit_glyph, draw_rect, draw_rect_safe, draw_text_rect,
    in_rect, in_rect_at, lemma_outside_clipped_unchanged, lemma_outside_rect_unchanged,
    lemma_rect_writes_subset, pixel_in_frame, pixel_same, pixel_set, rect_writes, zero_vec,
};

verus! {

/// Highlighting mode: a code mode colors tokens by kind, the plain text
/// mode paints everything in the default text color.
#[derive(PartialEq, Eq, Structural, Hash, Copy, Clone, Debug)]
pub enum CodeEditorMode {
    Rhai,
    Text,
    Settings,
}

/// Capacity of the document, in characters.
pub const MAX_TEXT: usize = 0x100000;

/// Pixel positions the editor accepts in coordinate arithmetic; larger
/// host input is clamped down to this.
pub const MAX_PIXEL: usize = 0x10000000;

/// Column sentinel for "the unbounded end of a line" in a line selection.
pub const LINE_END_COL: usize = 100000;

/// Multi-click gesture window in milliseconds.
pub const GESTURE_MS: u128 = 500;

/// The editor: document, cursor, selection, scroll, render surfaces.
pub struct CodeEditor {
    /// Whether the host has supplied font metrics; without them nothing is
    /// rendered.
    pub font_loaded: bool,

    /// The host rectangle last drawn into.
    pub rect: (usize, usize, usize, usize),
    /// The document text, as characters.
    pub text: Vec<char>,

    /// Font size in pixels, fixed per session.
    pub font_size: usize,

    /// Character offset of the cursor into the text.
    pub cursor_offset: usize,
    /// Cursor coordinate as (column, line).
    pub cursor_pos: (usize, usize),
    /// Cursor rectangle in surface pixels.
    pub cursor_rect: (usize, usize, usize, usize),

    /// Cached render output is stale.
    pub needs_update: bool,
    /// Highlighting mode.
    pub mode: CodeEditorMode,

    /// Gutter bitmap (line numbers) and its pixel size.
    pub line_numbers_buffer: Vec<u8>,
    pub line_numbers_size: (usize, usize),

    /// Code body bitmap and its pixel size.
    pub text_buffer: Vec<u8>,
    pub text_buffer_size: (usize, usize),

    /// Cached glyphs.
    pub glyphs: GlyphCache,
    /// Fixed pixel step between character cells.
    pub advance_width: usize,
    /// Fixed pixel step between lines.
    pub advance_height: usize,

    pub shift: bool,
    pub ctrl: bool,
    pub alt: bool,
    pub logo: bool,

    pub theme: Theme,
    pub settings: Settings,

    /// Diagnostic shown by recoloring a gutter line number.
    pub error: Option<(String, Option<usize>)>,

    /// Accumulated wheel remainder below one scroll step.
    pub mouse_wheel_delta: (isize, isize),
    /// Scroll offset in character cells.
    pub offset: (isize, isize),
    /// Maximum scroll offsets, from the last layout pass.
    pub max_offset: (usize, usize),

    /// Anchor coordinate of a drag in progress.
    pub range_buffer: (usize, usize),
    /// Selection start, in (column, line).
    pub range_start: Option<(usize, usize)>,
    /// Selection end, inclusive, in (column, line).
    pub range_end: Option<(usize, usize)>,

    /// End-of-text coordinate from the last layout pass.
    pub last_pos: (usize, usize),
    /// Wall-clock time of the last click, in milliseconds.
    pub last_click: u128,
    /// Click escalation stage: 0 idle, 1 word selected, 2 line selected.
    pub click_stage: i32,

    /// Pointer position while a drag is in progress.
    pub drag_pos: Option<(usize, usize)>,

    /// Recorded edits.
    pub undo_stack: UndoStack,
}

impl CodeEditor {
    /// Everything except cursor consistency: bounds on the text, metrics,
    /// caches, scroll and surfaces.
    pub open spec fn base_wf(self) -> bool {
        &&& self.text@.len() <= MAX_TEXT
        &&& 2 <= self.advance_width <= 256
        &&& 1 <= self.advance_height <= 256
        &&& self.font_size <= 256
        &&& self.glyphs.wf()
        &&& stack_wf(self.undo_stack)
        &&& self.scroll_ok()
        &&& self.buffers_ok()
        &&& self.cursor_rect.2 == 2
        &&& self.sel_ok()
    }

    /// Selection coordinates stay small enough for coordinate arithmetic,
    /// and a complete selection is ordered: its start is not after its end
    /// in (line, column) order.
    pub open spec fn sel_ok(self) -> bool {
        &&& match self.range_start {
            Option::Some(s) => s.0 <= 0x200000 && s.1 <= 0x200000,
            Option::None => true,
        }
        &&& match self.range_end {
            Option::Some(e) => e.0 <= 0x200000 && e.1 <= 0x200000,
            Option::None => true,
        }
        &&& match (self.range_start, self.range_end) {
            (Option::Some(s), Option::Some(e)) => coord_le(s, e),
            _ => true,
        }
        &&& self.range_buffer.0 <= 0x200000
        &&& self.range_buffer.1 <= 0x200000
    }

    /// The cursor fields agree with each other and with the text.
    pub open spec fn cursor_ok(self) -> bool {
        &&& (self.cursor_pos.1 as int) < total_lines(self.text@)
        &&& self.cursor_pos.0 as int <= line_len(self.text@, self.cursor_pos.1 as int)
        &&& self.cursor_offset as int == line_start(self.text@, self.cursor_pos.1 as int)
            + self.cursor_pos.0
        &&& self.cursor_offset <= self.text@.len()
        &&& walk_pos(self.text@, self.cursor_offset as int) == (
            self.cursor_pos.0 as int,
            self.cursor_pos.1 as int,
        )
        &&& self.cursor_rect.0 == self.cursor_pos.0 * self.advance_width
        &&& self.cursor_rect.1 == self.cursor_pos.1 * self.advance_height
        &&& self.cursor_rect.3 == self.advance_height
    }

    /// Scroll state stays inside the layout maximums.
    pub open spec fn scroll_ok(self) -> bool {
        &&& 0 <= self.offset.0 <= self.max_offset.0
        &&& 0 <= self.offset.1 <= self.max_offset.1
        &&& self.max_offset.0 * self.advance_width <= 0x10000000
        &&& self.max_offset.1 <= MAX_TEXT + 1
        &&& -2048 <= self.mouse_wheel_delta.0 <= 2048
        &&& -2048 <= self.mouse_wheel_delta.1 <= 2048
    }

    /// Render surfaces have the sizes they claim.
    pub open spec fn buffers_ok(self) -> bool {
        &&& self.line_numbers_size.0 <= 8192
        &&& self.line_numbers_size.1 <= 65536
        &&& self.line_numbers_buffer@.len() == self.line_numbers_size.0
            * self.line_numbers_size.1 * 4
        &&& self.text_buffer_size.0 <= 8192
        &&& self.text_buffer_size.1 <= 65536
        &&& self.text_buffer@.len() == self.text_buffer_size.0 * self.text_buffer_size.1 * 4
    }

    /// The editor invariant: established by the constructor, preserved by
    /// every method.
    pub open spec fn wf(self) -> bool {
        &&& self.base_wf()
        &&& self.cursor_ok()
    }

    /// A fresh editor: empty text, cursor at the origin, dirty, no font.
    pub fn new() -> (e: CodeEditor)
        ensures
            e.wf(),
            e.text@.len() == 0,
            e.cursor_pos == (0usize, 0usize),
            e.cursor_offset == 0,
            e.needs_update,
            !e.font_loaded,
            e.mode == CodeEditorMode::Rhai,
            e.range_start is None,
            e.range_end is None,
            e.drag_pos is None,
            e.undo_stack.stack@.len() == 0,
            e.undo_stack.index == -1,
            e.advance_width == 10,
            e.advance_height == 22,
            e.offset == (0isize, 0isize),
            e.max_offset == (0usize, 0usize),
            e.mouse_wheel_delta == (0isize, 0isize),
            e.click_stage == 0,
            e.last_click == 0,
    {
        CodeEditor {
            font_loaded: false,

            rect: (0, 0, 0, 0),
            text: Vec::new(),

            font_size: 17,

            cursor_offset: 0,
            cursor_pos: (0, 0),
            cursor_rect: (0, 0, 2, 22),

            needs_update: true,
            mode: CodeEditorMode::Rhai,

            line_numbers_buffer: Vec::new(),
            line_numbers_size: (0, 0),

            text_buffer: Vec::new(),
            text_buffer_size: (0, 0),

            glyphs: GlyphCache::new(),
            advance_width: 10,
            advance_height: 22,

            shift: false,
            ctrl: false,
            alt: false,
            logo: false,

            theme: Theme::new(),
            settings: Settings::new(),

            error: None,

            mouse_wheel_delta: (0, 0),
            offset: (0, 0),
            max_offset: (0, 0),

            range_buffer: (0, 0),
            range_start: None,
            range_end: None,

            last_pos: (0, 0),
            last_click: 0,
            click_stage: 0,

            drag_pos: None,

            undo_stack: UndoStack::new(),
        }
    }

    /// Supplies the font metrics the host measured: the fixed advance width
    /// and line height and the font size, all in pixels. Invalidates the
    /// whole glyph cache, since cached bitmaps belong to the old metrics.
    pub fn set_font_metrics(&mut self, advance_width: usize, advance_height: usize, font_size: usize)
        requires
            old(self).wf(),
            2 <= advance_width <= 256,
            1 <= advance_height <= 256,
            font_size <= 256,
        ensures
            final(self).wf(),
            final(self).advance_width == advance_width,
            final(self).advance_height == advance_height,
            final(self).font_size == font_size,
            final(self).font_loaded,
            final(self).needs_update,
            final(self).glyphs.entries@.len() == 0,
            final(self).text == old(self).text,
            final(self).cursor_pos == old(self).cursor_pos,
            final(self).undo_stack == old(self).undo_stack,
    {
        self.advance_width = advance_width;
        self.advance_height = advance_height;
        self.font_size = font_size;
        self.font_loaded = true;
        self.glyphs = GlyphCache::new();
        proof {
            crate::document::lemma_line_bounds(self.text@, self.cursor_pos.1 as int);
            crate::document::lemma_newline_count_bounds(self.text@, self.text@.len() as int);
            assert(self.cursor_pos.0 * advance_width <= MAX_TEXT * 256) by (nonlinear_arith)
                requires self.cursor_pos.0 <= MAX_TEXT, advance_width <= 256,
            ;
            assert(self.cursor_pos.1 * advance_height <= MAX_TEXT * 256) by (nonlinear_arith)
                requires self.cursor_pos.1 <= MAX_TEXT, advance_height <= 256,
            ;
        }
        self.cursor_rect = (
            self.cursor_pos.0 * advance_width,
            self.cursor_pos.1 * advance_height,
            2,
            advance_height,
        );
        self.max_offset = (0, 0);
        self.offset = (0, 0);
        self.needs_update = true;
    }

    /// Caches a rasterized glyph handed in by the host. A glyph already
    /// cached for the character is kept.
    pub fn insert_glyph(&mut self, c: char, metrics: GlyphMetrics, bitmap: Vec<u8>)
        requires
            old(self).wf(),
            metrics_wf(metrics),
            bitmap@.len() == metrics.width * metrics.height,
        ensures
            final(self).wf(),
            final(self).glyphs.has_spec(c),
            old(self).glyphs.has_spec(c) ==> *final(self) == *old(self),
            !old(self).glyphs.has_spec(c) ==> final(self).glyphs.entries@ == old(self).glyphs.entries@.push((GlyphEntry { ch: c, metrics, bitmap })),
            *final(self) == (CodeEditor { glyphs: final(self).glyphs, ..*old(self) }),
    {
        if !self.glyphs.has(c) {
            self.glyphs.insert(c, metrics, bitmap);
        }
    }

    /// Whether a glyph for `c` is cached.
    pub fn has_glyph(&self, c: char) -> (r: bool)
        ensures
            r == self.glyphs.has_spec(c),
    {
        self.glyphs.has(c)
    }

    /// Set the text to be edited. Marks the render stale and clamps the
    /// cursor coordinate into the new text; nothing else is reset.
    pub fn set_text(&mut self, text: String)
        requires
            old(self).wf(),
            text@.len() <= MAX_TEXT,
        ensures
            final(self).wf(),
            final(self).text@ == text@,
            final(self).needs_update,
            final(self).cursor_pos.1 == clamp_line(text@, old(self).cursor_pos.1 as int),
            final(self).cursor_pos.0 == clamp_col(
                text@,
                old(self).cursor_pos.1 as int,
                old(self).cursor_pos.0 as int,
            ),
            final(self).cursor_offset == offset_of(
                text@,
                old(self).cursor_pos.1 as int,
                old(self).cursor_pos.0 as int,
            ),
            *final(self) == (CodeEditor {
                text: final(self).text,
                needs_update: true,
                cursor_pos: final(self).cursor_pos,
                cursor_offset: final(self).cursor_offset,
                cursor_rect: final(self).cursor_rect,
                ..*old(self)
            }),
    {
        self.text = chars_of_string(&text);
        self.needs_update = true;
        let col = self.cursor_pos.0;
        let line = self.cursor_pos.1;
        self.relocate_cursor(col, line);
    }

    /// Returns the edited text.
    pub fn get_text(&mut self) -> (r: String)
        ensures
            r@ == old(self).text@,
            *final(self) == *old(self),
    {
        string_from_chars(&self.text)
    }

    /// Replaces the color theme.
    pub fn set_theme(&mut self, theme: Theme)
        requires
            old(self).wf(),
        ensures
            final(self).wf(),
            final(self).theme == theme,
            *final(self) == (CodeEditor { theme: theme, ..*old(self) }),
    {
        self.theme = theme;
    }

    /// Sets or clears the diagnostic whose line number the gutter recolors.
    pub fn set_error(&mut self, error: Option<(String, Option<usize>)>)
        requires
            old(self).wf(),
        ensures
            final(self).wf(),
            final(self).error == error,
            final(self).needs_update,
            *final(self) == (CodeEditor {
                error: final(self).error,
                needs_update: true,
                ..*old(self)
            }),
    {
        self.error = error;
        self.needs_update = true;
    }

    /// Sets the highlighting mode and rewinds the scroll position.
    pub fn set_mode(&mut self, mode: CodeEditorMode)
        requires
            old(self).wf(),
        ensures
            final(self).wf(),
            final(self).mode == mode,
            final(self).offset == (0isize, 0isize),
            *final(self) == (CodeEditor { mode, offset: (0isize, 0isize), ..*old(self) }),
    {
        self.offset = (0, 0);
        self.mode = mode;
    }

    /// Tracks the host's modifier-key state.
    pub fn modifier_changed(&mut self, shift: bool, ctrl: bool, alt: bool, logo: bool) -> (r: bool)
        requires
            old(self).wf(),
        ensures
            final(self).wf(),
            final(self).shift == shift,
            final(self).ctrl == ctrl,
            final(self).alt == alt,
            final(self).logo == logo,
            r == false,
            final(self).text == old(self).text,
    {
        self.shift = shift;
        self.ctrl = ctrl;
        self.alt = alt;
        self.logo = logo;
        false
    }

    /// Pointer hover: consumed by nothing.
    pub fn mouse_hover(&mut self, _pos: (usize, usize)) -> (r: bool)
        ensures
            *final(self) == *old(self),
            r == false,
    {
        false
    }

    /// Copies the characters between `start` and `end` (end exclusive).
    pub fn copy_range(&self, start: Option<(usize, usize)>, end: Option<(usize, usize)>) -> (r:
        String)
        ensures
            r@ == extract_spec(self.text@, start, end, false),
    {
        let v = extract_chars(&self.text, start, end, false);
        string_from_chars(&v)
    }

    /// Copies the characters between `start` and `end` (end inclusive).
    pub fn copy_range_incl(&self, start: Option<(usize, usize)>, end: Option<(usize, usize)>) -> (
        r: String)
        ensures
            r@ == extract_spec(self.text@, start, end, true),
    {
        let v = extract_chars(&self.text, start, end, true);
        string_from_chars(&v)
    }

    /// Moves the cursor to the (column, line) coordinate, clamped into the
    /// text, and re-derives the offset and pixel rectangle.
    fn relocate_cursor(&mut self, col: usize, line: usize)
        requires
            old(self).base_wf(),
        ensures
            final(self).wf(),
            final(self).cursor_pos.1 == clamp_line(old(self).text@, line as int),
            final(self).cursor_pos.0 == clamp_col(old(self).text@, line as int, col as int),
            final(self).cursor_offset == offset_of(old(self).text@, line as int, col as int),
            *final(self) == (CodeEditor {
                cursor_pos: final(self).cursor_pos,
                cursor_offset: final(self).cursor_offset,
                cursor_rect: final(self).cursor_rect,
                ..*old(self)
            }),
    {
        let r = locate(&self.text, col, line);
        self.cursor_pos = (r.0, r.1);
        self.cursor_offset = r.2;
        proof {
            crate::document::lemma_line_bounds(self.text@, r.1 as int);
            crate::document::lemma_newline_count_bounds(self.text@, self.text@.len() as int);
            assert(r.0 * self.advance_width <= MAX_TEXT * 256) by (nonlinear_arith)
                requires r.0 <= MAX_TEXT, self.advance_width <= 256,
            ;
            assert(r.1 * self.advance_height <= MAX_TEXT * 256) by (nonlinear_arith)
                requires r.1 <= MAX_TEXT, self.advance_height <= 256,
            ;
        }
        self.cursor_rect = (
            r.0 * self.advance_width,
            r.1 * self.advance_height,
            self.cursor_rect.2,
            self.advance_height,
        );
    }
}

/// The line index a pixel row maps to, before clamping.
pub open spec fn pixel_to_line(py: int, advance_height: int) -> int {
    py / advance_height
}

/// The column a pixel abscissa maps to, before clamping: the nearest
/// character boundary, rounding down inside the left half of a cell and up
/// inside the right half.
pub open spec fn pixel_to_col(px: int, advance_width: int) -> int {
    (px + (advance_width - advance_width / 2)) / advance_width
}

/// Truncating division (toward zero), as the wheel accumulator uses it.
pub open spec fn div_trunc(a: int, b: int) -> int {
    if a >= 0 {
        a / b
    } else {
        -((-a) / b)
    }
}

/// An integer clamped into [lo, hi].
pub open spec fn iclamp(v: int, lo: int, hi: int) -> int {
    if v < lo {
        lo
    } else if v > hi {
        hi
    } else {
        v
    }
}

/// Whether cell (x, y) lies inside the selection from `start` to `end`
/// (both inclusive): on a strictly interior line, or on the boundary lines
/// past/ before the boundary columns.
pub open spec fn in_selection(
    start: Option<(usize, usize)>,
    end: Option<(usize, usize)>,
    x: int,
    y: int,
) -> bool {
    match (start, end) {
        (Option::Some(s), Option::Some(e)) => (y > s.1 && y < e.1) || (y == s.1 && x >= s.0 && y
            != e.1) || (y == e.1 && x <= e.0 && y != s.1) || (y == s.1 && y == e.1 && x >= s.0 && x
            <= e.0),
        _ => false,
    }
}

impl CodeEditor {
    /// Whether cell (x, y) lies inside the active selection range.
    pub fn inside_selection(&self, x: usize, y: usize) -> (r: bool)
        ensures
            r == in_selection(self.range_start, self.range_end, x as int, y as int),
    {
        let mut inside = false;
        if let Some(range_start) = self.range_start {
            if let Some(range_end) = self.range_end {
                if y > range_start.1 && y < range_end.1 || (y == range_start.1 && x
                    >= range_start.0 && y != range_end.1) || (y == range_end.1 && x <= range_end.0
                    && y != range_start.1) || (y == range_start.1 && y == range_end.1 && x
                    >= range_start.0 && x <= range_end.0) {
                    inside = true;
                }
            }
        }
        inside
    }

    /// Maps a pixel position in the text area to a document coordinate and
    /// moves the cursor there: divide the row by the line height, round the
    /// abscissa to the nearest character boundary, clamp both into the text.
    pub fn set_cursor_offset_from_pos(&mut self, pos: (usize, usize)) -> (r: bool)
        requires
            old(self).wf(),
            pos.0 <= 0x40000000,
            pos.1 <= 0x40000000,
        ensures
            final(self).wf(),
            r == true,
            final(self).cursor_pos.1 == clamp_line(
                old(self).text@,
                pixel_to_line(pos.1 as int, old(self).advance_height as int),
            ),
            final(self).cursor_pos.0 == clamp_col(
                old(self).text@,
                pixel_to_line(pos.1 as int, old(self).advance_height as int),
                pixel_to_col(pos.0 as int, old(self).advance_width as int),
            ),
            final(self).cursor_offset == offset_of(
                old(self).text@,
                pixel_to_line(pos.1 as int, old(self).advance_height as int),
                pixel_to_col(pos.0 as int, old(self).advance_width as int),
            ),
            *final(self) == (CodeEditor {
                cursor_pos: final(self).cursor_pos,
                cursor_offset: final(self).cursor_offset,
                cursor_rect: final(self).cursor_rect,
                ..*old(self)
            }),
    {
        let line = pos.1 / self.advance_height;
        let col = (pos.0 + (self.advance_width - self.advance_width / 2)) / self.advance_width;
        self.relocate_cursor(col, line);
        true
    }

    /// Moves the cursor to the given (column, line) coordinate, clamped.
    pub fn set_cursor(&mut self, pos: (usize, usize))
        requires
            old(self).wf(),
        ensures
            final(self).wf(),
            final(self).cursor_pos.1 == clamp_line(old(self).text@, pos.1 as int),
            final(self).cursor_pos.0 == clamp_col(old(self).text@, pos.1 as int, pos.0 as int),
            final(self).cursor_offset == offset_of(old(self).text@, pos.1 as int, pos.0 as int),
            *final(self) == (CodeEditor {
                cursor_pos: final(self).cursor_pos,
                cursor_offset: final(self).cursor_offset,
                cursor_rect: final(self).cursor_rect,
                ..*old(self)
            }),
    {
        self.relocate_cursor(pos.0, pos.1);
    }

    /// Accumulates wheel deltas and converts whole scroll steps into scroll
    /// offset changes, carrying the remainder: deltas below one step leave
    /// the offset unchanged, and nothing is lost to truncation.
    pub fn mouse_wheel(&mut self, delta: (isize, isize)) -> (r: bool)
        requires
            old(self).wf(),
        ensures
            final(self).wf(),
            r == true,
            ({
                let d0 = iclamp(delta.0 as int, -0x1000000, 0x1000000);
                let a0 = old(self).mouse_wheel_delta.0 + d0;
                let step0 = 6 * old(self).advance_width;
                let q0 = div_trunc(a0, step0 as int);
                &&& final(self).offset.0 == iclamp(
                    old(self).offset.0 + q0,
                    0,
                    old(self).max_offset.0 as int,
                )
                &&& final(self).mouse_wheel_delta.0 == a0 - q0 * step0
            }),
            ({
                let d1 = iclamp(delta.1 as int, -0x1000000, 0x1000000);
                let a1 = old(self).mouse_wheel_delta.1 + d1;
                let step1 = old(self).advance_height as int;
                let q1 = div_trunc(a1, step1);
                &&& final(self).offset.1 == iclamp(
                    old(self).offset.1 - q1,
                    0,
                    old(self).max_offset.1 as int,
                )
                &&& final(self).mouse_wheel_delta.1 == a1 - q1 * step1
            }),
            *final(self) == (CodeEditor {
                offset: final(self).offset,
                mouse_wheel_delta: final(self).mouse_wheel_delta,
                ..*old(self)
            }),
    {
        let d0: isize = if delta.0 < -0x1000000 {
            -0x1000000
        } else if delta.0 > 0x1000000 {
            0x1000000
        } else {
            delta.0
        };
        let d1: isize = if delta.1 < -0x1000000 {
            -0x1000000
        } else if delta.1 > 0x1000000 {
            0x1000000
        } else {
            delta.1
        };

        let a0: isize = self.mouse_wheel_delta.0 + d0;
        let a1: isize = self.mouse_wheel_delta.1 + d1;

        let step0: usize = 6 * self.advance_width;
        let step1: usize = self.advance_height;

        let q0: isize = if a0 >= 0 {
            ((a0 as usize) / step0) as isize
        } else {
            -((((-a0) as usize) / step0) as isize)
        };
        let q1: isize = if a1 >= 0 {
            ((a1 as usize) / step1) as isize
        } else {
            -((((-a1) as usize) / step1) as isize)
        };

        proof {
            assert(q0 == div_trunc(a0 as int, step0 as int));
            assert(q1 == div_trunc(a1 as int, step1 as int));
            assert(q0 * step0 <= a0 < (q0 + 1) * step0 || (a0 < 0 && q0 * step0 >= a0))
                by (nonlinear_arith)
                requires
                    q0 == div_trunc(a0 as int, step0 as int),
                    step0 >= 1,
            ;
        }

        proof {
            assert(self.max_offset.0 <= 0x8000000) by (nonlinear_arith)
                requires
                    self.max_offset.0 * self.advance_width <= 0x10000000,
                    self.advance_width >= 2,
            ;
            assert(-0x1000800 <= q0 <= 0x1000800) by (nonlinear_arith)
                requires
                    q0 == div_trunc(a0 as int, step0 as int),
                    -0x1000800 <= a0 as int <= 0x1000800,
                    step0 >= 1,
            ;
            assert(-0x1000800 <= q1 <= 0x1000800) by (nonlinear_arith)
                requires
                    q1 == div_trunc(a1 as int, step1 as int),
                    -0x1000800 <= a1 as int <= 0x1000800,
                    step1 >= 1,
            ;
        }
        let mut off0: isize = self.offset.0 + q0;
        if off0 < 0 {
            off0 = 0;
        }
        if off0 > self.max_offset.0 as isize {
            off0 = self.max_offset.0 as isize;
        }
        let mut off1: isize = self.offset.1 - q1;
        if off1 < 0 {
            off1 = 0;
        }
        if off1 > self.max_offset.1 as isize {
            off1 = self.max_offset.1 as isize;
        }
        self.offset = (off0, off1);

        proof {
            assert(a0 as int - div_trunc(a0 as int, step0 as int) * (step0 as int) == (if a0 as int
                >= 0 {
                (a0 as int) % (step0 as int)
            } else {
                -((-(a0 as int)) % (step0 as int))
            })) by (nonlinear_arith)
                requires step0 >= 1,
            ;
            assert(a1 as int - div_trunc(a1 as int, step1 as int) * (step1 as int) == (if a1 as int
                >= 0 {
                (a1 as int) % (step1 as int)
            } else {
                -((-(a1 as int)) % (step1 as int))
            })) by (nonlinear_arith)
                requires step1 >= 1,
            ;
        }

        let r0: isize = if a0 >= 0 {
            ((a0 as usize) % step0) as isize
        } else {
            -((((-a0) as usize) % step0) as isize)
        };
        let r1: isize = if a1 >= 0 {
            ((a1 as usize) % step1) as isize
        } else {
            -((((-a1) as usize) % step1) as isize)
        };
        self.mouse_wheel_delta = (r0, r1);

        true
    }
}

/// The text that results from replacing the selection [start, end]
/// (end-inclusive) with `mid`: the characters before `start`, then `mid`,
/// then the characters from the column after `end` on.
pub open spec fn splice_selection(
    t: Seq<char>,
    start: (usize, usize),
    end: (usize, usize),
    mid: Seq<char>,
) -> Seq<char> {
    extract_spec(t, Option::None, Option::Some(start), false) + mid + extract_spec(
        t,
        Option::Some(((end.0 + 1) as usize, end.1)),
        Option::None,
        false,
    )
}

/// What inserting a printable character does: it replaces the selection
/// when one is active, else it enters the text at the cursor offset and the
/// cursor moves one column right; the edit is recorded on the undo stack.
/// A document at capacity is left unchanged.
pub open spec fn insert_char_post(pre: CodeEditor, post: CodeEditor, c: char) -> bool {
    &&& pre.has_selection() ==> {
        let spliced = splice_selection(pre.text@, pre.range_start->0, pre.range_end->0, seq![c]);
        &&& spliced.len() <= MAX_TEXT ==> {
            &&& post.text@ == spliced
            &&& post.range_start is None
            &&& post.range_end is None
            &&& post.needs_update
            &&& post.cursor_pos.1 == clamp_line(post.text@, (pre.range_start->0).1 as int)
            &&& post.cursor_pos.0 == clamp_col(
                post.text@,
                (pre.range_start->0).1 as int,
                (pre.range_start->0).0 + 1,
            )
            &&& exists|tm: u128|
                crate::undo::add_post(
                    pre.undo_stack,
                    post.undo_stack,
                    pre.text@,
                    post.text@,
                    post.cursor_pos,
                    tm,
                )
        }
        &&& spliced.len() > MAX_TEXT ==> post == pre
    }
    &&& !pre.has_selection() && pre.text@.len() < MAX_TEXT ==> {
        &&& post.range_start == pre.range_start
        &&& post.range_end == pre.range_end
        &&& post.text@ == pre.text@.insert(pre.cursor_offset as int, c)
        &&& post.cursor_pos.1 == clamp_line(post.text@, pre.cursor_pos.1 as int)
        &&& post.cursor_pos.0 == clamp_col(post.text@, pre.cursor_pos.1 as int, pre.cursor_pos.0 + 1)
        &&& post.cursor_offset == offset_of(post.text@, pre.cursor_pos.1 as int, pre.cursor_pos.0 + 1)
        &&& post.needs_update
        &&& exists|tm: u128|
            crate::undo::add_post(
                pre.undo_stack,
                post.undo_stack,
                pre.text@,
                post.text@,
                post.cursor_pos,
                tm,
            )
    }
    &&& !pre.has_selection() && pre.text@.len() >= MAX_TEXT ==> post == pre
}

/// What backspace does: it deletes the selection when one is active and
/// puts the cursor at the selection start; else it removes the character
/// before the cursor, whose position the cursor takes (joining lines over a
/// removed line feed); at the very start of the text nothing happens.
pub open spec fn delete_key_post(pre: CodeEditor, post: CodeEditor) -> bool {
    &&& pre.has_selection() ==> {
        let spliced = splice_selection(
            pre.text@,
            pre.range_start->0,
            pre.range_end->0,
            Seq::empty(),
        );
        &&& spliced.len() <= MAX_TEXT ==> {
            &&& post.text@ == spliced
            &&& post.range_start is None
            &&& post.range_end is None
            &&& post.needs_update
            &&& post.cursor_pos.1 == clamp_line(post.text@, (pre.range_start->0).1 as int)
            &&& post.cursor_pos.0 == clamp_col(
                post.text@,
                (pre.range_start->0).1 as int,
                (pre.range_start->0).0 as int,
            )
            &&& exists|tm: u128|
                crate::undo::add_post(
                    pre.undo_stack,
                    post.undo_stack,
                    pre.text@,
                    post.text@,
                    post.cursor_pos,
                    tm,
                )
        }
        &&& spliced.len() > MAX_TEXT ==> post == pre
    }
    &&& !pre.has_selection() && pre.text@.len() > 0 && pre.cursor_offset >= 1 ==> {
        &&& post.range_start == pre.range_start
        &&& post.range_end == pre.range_end
        &&& post.text@ == pre.text@.remove(pre.cursor_offset - 1)
        &&& post.cursor_offset == pre.cursor_offset - 1
        &&& (post.cursor_pos.0 as int, post.cursor_pos.1 as int) == walk_pos(
            post.text@,
            pre.cursor_offset - 1,
        )
        &&& post.needs_update
        &&& exists|tm: u128|
            crate::undo::add_post(
                pre.undo_stack,
                post.undo_stack,
                pre.text@,
                post.text@,
                post.cursor_pos,
                tm,
            )
    }
    &&& !pre.has_selection() && !(pre.text@.len() > 0 && pre.cursor_offset >= 1) ==> post == pre
}

/// What the tab key does: two spaces enter the text at the cursor offset
/// and the cursor moves past them. A document at capacity is left
/// unchanged.
pub open spec fn tab_key_post(pre: CodeEditor, post: CodeEditor) -> bool {
    &&& pre.text@.len() + 2 <= MAX_TEXT ==> {
        &&& post.text@ == pre.text@.subrange(0, pre.cursor_offset as int) + seq![' ', ' ']
            + pre.text@.subrange(pre.cursor_offset as int, pre.text@.len() as int)
        &&& post.cursor_offset == pre.cursor_offset + 2
        &&& (post.cursor_pos.0 as int, post.cursor_pos.1 as int) == walk_pos(
            post.text@,
            pre.cursor_offset + 2,
        )
        &&& post.needs_update
        &&& post.range_start == pre.range_start
        &&& post.range_end == pre.range_end
        &&& exists|tm: u128|
            crate::undo::add_post(
                pre.undo_stack,
                post.undo_stack,
                pre.text@,
                post.text@,
                post.cursor_pos,
                tm,
            )
    }
    &&& pre.text@.len() + 2 > MAX_TEXT ==> post == pre
}

/// What the return key does: a line feed enters the text at the cursor
/// offset and the cursor moves to the start of the new line; the edit is
/// recorded. A document at capacity is left unchanged.
pub open spec fn return_key_post(pre: CodeEditor, post: CodeEditor) -> bool {
    &&& pre.text@.len() + 1 <= MAX_TEXT ==> {
        &&& post.text@ == pre.text@.subrange(0, pre.cursor_offset as int) + seq!['\n']
            + pre.text@.subrange(pre.cursor_offset as int, pre.text@.len() as int)
        &&& post.cursor_offset == pre.cursor_offset + 1
        &&& (post.cursor_pos.0 as int, post.cursor_pos.1 as int) == walk_pos(
            post.text@,
            pre.cursor_offset + 1,
        )
        &&& post.needs_update
        &&& post.range_start == pre.range_start
        &&& post.range_end == pre.range_end
        &&& exists|tm: u128|
            crate::undo::add_post(
                pre.undo_stack,
                post.undo_stack,
                pre.text@,
                post.text@,
                post.cursor_pos,
                tm,
            )
    }
    &&& pre.text@.len() + 1 > MAX_TEXT ==> post == pre
}

impl CodeEditor {
    /// Both ends of a selection are present.
    pub open spec fn has_selection(self) -> bool {
        self.range_start is Some && self.range_end is Some
    }

    /// Records an edit from `before` to the current text on the undo stack,
    /// stamped with the wall clock.
    fn record_edit(&mut self, before: String, redo_pos: (usize, usize))
        requires
            stack_wf(old(self).undo_stack),
            old(self).undo_stack.stack@.len() < isize::MAX,
        ensures
            stack_wf(final(self).undo_stack),
            exists|tm: u128|
                crate::undo::add_post(
                    old(self).undo_stack,
                    final(self).undo_stack,
                    before@,
                    old(self).text@,
                    redo_pos,
                    tm,
                ),
            *final(self) == (CodeEditor { undo_stack: final(self).undo_stack, ..*old(self) }),
    {
        let after = string_from_chars(&self.text);
        self.undo_stack.add(before, after, redo_pos);
    }

    /// Replaces the selection with `mid` and puts the cursor at `pos`; the
    /// caller has already checked that a selection is active. Used by
    /// character insertion over a selection, backspace and cut. When the
    /// spliced text would exceed the capacity nothing changes.
    fn replace_selection(&mut self, mid: Vec<char>, pos: (usize, usize)) -> (r: bool)
        requires
            old(self).wf(),
            old(self).range_start is Some,
            old(self).range_end is Some,
            old(self).undo_stack.stack@.len() < isize::MAX,
            pos.0 <= 0x200001,
            pos.1 <= 0x200000,
        ensures
            final(self).wf(),
            r == (splice_selection(
                old(self).text@,
                old(self).range_start->0,
                old(self).range_end->0,
                mid@,
            ).len() <= MAX_TEXT),
            r ==> final(self).text@ == splice_selection(
                old(self).text@,
                old(self).range_start->0,
                old(self).range_end->0,
                mid@,
            ),
            r ==> {
                &&& final(self).cursor_pos.1 == clamp_line(final(self).text@, pos.1 as int)
                &&& final(self).cursor_pos.0 == clamp_col(
                    final(self).text@,
                    pos.1 as int,
                    pos.0 as int,
                )
                &&& final(self).cursor_offset == offset_of(
                    final(self).text@,
                    pos.1 as int,
                    pos.0 as int,
                )
                &&& final(self).range_start is None
                &&& final(self).range_end is None
                &&& final(self).needs_update
                &&& exists|tm: u128|
                    crate::undo::add_post(
                        old(self).undo_stack,
                        final(self).undo_stack,
                        old(self).text@,
                        final(self).text@,
                        final(self).cursor_pos,
                        tm,
                    )
            },
            !r ==> *final(self) == *old(self),
            final(self).mode == old(self).mode,
            final(self).glyphs == old(self).glyphs,
    {
        let start = match self.range_start {
            Option::Some(st) => st,
            Option::None => (0, 0),
        };
        let end = match self.range_end {
            Option::Some(en) => en,
            Option::None => (0, 0),
        };
        let before = string_from_chars(&self.text);

        let mut spliced = extract_chars(&self.text, None, Some(start), false);
        let mut midv = mid;
        let mut suffix = extract_chars(&self.text, Some((end.0 + 1, end.1)), None, false);
        spliced.append(&mut midv);
        spliced.append(&mut suffix);

        if spliced.len() > MAX_TEXT {
            return false;
        }

        self.text = spliced;
        self.range_start = None;
        self.range_end = None;
        self.needs_update = true;
        let p0 = pos.0;
        let p1 = pos.1;
        self.relocate_cursor(p0, p1);
        let cp = self.cursor_pos;
        self.record_edit(before, cp);
        true
    }

    /// Inserts a printable character: it replaces the selection when one is
    /// active, else it enters the text at the cursor, which moves one cell
    /// right. Records the edit. A full document is left unchanged.
    pub fn insert_char(&mut self, c: char) -> (r: bool)
        requires
            old(self).wf(),
            c != '\n',
            old(self).undo_stack.stack@.len() < isize::MAX,
        ensures
            final(self).wf(),
            r == true,
            insert_char_post(*old(self), *final(self), c),
    {
        let has_sel = match (self.range_start, self.range_end) {
            (Option::Some(_), Option::Some(_)) => true,
            _ => false,
        };
        if has_sel {
            let start = match self.range_start {
                Option::Some(st) => st,
                Option::None => (0, 0),
            };
            let mut mid: Vec<char> = Vec::new();
            mid.push(c);
            let target = (start.0 + 1, start.1);
            self.replace_selection(mid, target);
            return true;
        }
        if self.text.len() >= MAX_TEXT {
            return true;
        }
        let before = string_from_chars(&self.text);
        let off = self.cursor_offset;
        self.text.insert(off, c);
        self.needs_update = true;
        let col = self.cursor_pos.0;
        let line = self.cursor_pos.1;
        proof {
            crate::document::lemma_line_bounds(old(self).text@, line as int);
        }
        self.relocate_cursor(col + 1, line);
        let cp = self.cursor_pos;
        self.record_edit(before, cp);
        true
    }

    /// Backspace: deletes the selection when one is active, positioning the
    /// cursor at the selection start; else deletes the character before the
    /// cursor, which moves onto that character's position (joining lines
    /// when the deleted character was a line feed). Records the edit.
    pub fn delete_key(&mut self) -> (r: bool)
        requires
            old(self).wf(),
            old(self).undo_stack.stack@.len() < isize::MAX,
        ensures
            final(self).wf(),
            r == true,
            delete_key_post(*old(self), *final(self)),
    {
        let has_sel = match (self.range_start, self.range_end) {
            (Option::Some(_), Option::Some(_)) => true,
            _ => false,
        };
        if has_sel {
            let start = match self.range_start {
                Option::Some(st) => st,
                Option::None => (0, 0),
            };
            let mid: Vec<char> = Vec::new();
            self.replace_selection(mid, start);
            return true;
        }
        if self.text.len() > 0 && self.cursor_offset >= 1 {
            let before = string_from_chars(&self.text);
            let off = self.cursor_offset;
            self.text.remove(off - 1);
            self.needs_update = true;
            let nc = crate::document::coord_at(&self.text, off - 1);
            proof {
                crate::document::lemma_walk_line_start(self.text@, (off - 1) as int);
            }
            self.cursor_pos = nc;
            self.cursor_offset = off - 1;
            proof {
                crate::document::lemma_line_bounds(self.text@, nc.1 as int);
                crate::document::lemma_newline_count_bounds(self.text@, self.text@.len() as int);
                assert(nc.0 * self.advance_width <= MAX_TEXT * 256) by (nonlinear_arith)
                    requires nc.0 <= MAX_TEXT, self.advance_width <= 256,
                ;
                assert(nc.1 * self.advance_height <= MAX_TEXT * 256) by (nonlinear_arith)
                    requires nc.1 <= MAX_TEXT, self.advance_height <= 256,
                ;
            }
            self.cursor_rect = (
                nc.0 * self.advance_width,
                nc.1 * self.advance_height,
                self.cursor_rect.2,
                self.advance_height,
            );
            let cp = self.cursor_pos;
            let ghost pre_record = *self;
            self.record_edit(before, cp);
            proof {
                let tm = choose|tm: u128|
                    crate::undo::add_post(
                        pre_record.undo_stack,
                        self.undo_stack,
                        before@,
                        pre_record.text@,
                        cp,
                        tm,
                    );
                assert(crate::undo::add_post(
                    old(self).undo_stack,
                    self.undo_stack,
                    old(self).text@,
                    self.text@,
                    self.cursor_pos,
                    tm,
                ));
            }
            return true;
        }
        true
    }
}

impl CodeEditor {
    /// Inserts `what` at the cursor offset and places the cursor at the end
    /// of the inserted characters. The common core of tab, return and paste.
    /// A document that would exceed its capacity is left unchanged.
    fn insert_at_cursor(&mut self, what: Vec<char>) -> (r: bool)
        requires
            old(self).wf(),
            old(self).undo_stack.stack@.len() < isize::MAX,
        ensures
            final(self).wf(),
            r == (old(self).text@.len() + what@.len() <= MAX_TEXT),
            r ==> {
                &&& final(self).text@ == old(self).text@.subrange(
                    0,
                    old(self).cursor_offset as int,
                ) + what@ + old(self).text@.subrange(
                    old(self).cursor_offset as int,
                    old(self).text@.len() as int,
                )
                &&& final(self).cursor_offset == old(self).cursor_offset + what@.len()
                &&& (final(self).cursor_pos.0 as int, final(self).cursor_pos.1 as int) == walk_pos(
                    final(self).text@,
                    final(self).cursor_offset as int,
                )
                &&& final(self).needs_update
                &&& final(self).range_start == old(self).range_start
                &&& final(self).range_end == old(self).range_end
                &&& exists|tm: u128|
                    crate::undo::add_post(
                        old(self).undo_stack,
                        final(self).undo_stack,
                        old(self).text@,
                        final(self).text@,
                        final(self).cursor_pos,
                        tm,
                    )
            },
            !r ==> *final(self) == *old(self),
    {
        if what.len() > MAX_TEXT || self.text.len() > MAX_TEXT - what.len() {
            return false;
        }
        let before = string_from_chars(&self.text);
        let off = self.cursor_offset;

        let mut v: Vec<char> = Vec::new();
        let mut i: usize = 0;
        while i < off
            invariant
                off <= self.text@.len(),
                i <= off,
                v@ == self.text@.subrange(0, i as int),
            decreases off - i,
        {
            v.push(self.text[i]);
            proof {
                assert(v@ =~= self.text@.subrange(0, i + 1));
            }
            i = i + 1;
        }
        let mut j: usize = 0;
        while j < what.len()
            invariant
                off <= self.text@.len(),
                j <= what@.len(),
                v@ == self.text@.subrange(0, off as int) + what@.subrange(0, j as int),
            decreases what@.len() - j,
        {
            v.push(what[j]);
            proof {
                assert(v@ =~= self.text@.subrange(0, off as int) + what@.subrange(0, j + 1));
            }
            j = j + 1;
        }
        let mut k: usize = off;
        while k < self.text.len()
            invariant
                off <= self.text@.len(),
                off <= k <= self.text@.len(),
                v@ == self.text@.subrange(0, off as int) + what@ + self.text@.subrange(
                    off as int,
                    k as int,
                ),
            decreases self.text@.len() - k,
        {
            v.push(self.text[k]);
            proof {
                assert(v@ =~= self.text@.subrange(0, off as int) + what@ + self.text@.subrange(
                    off as int,
                    k + 1,
                ));
            }
            k = k + 1;
        }
        proof {
            assert(what@.subrange(0, what@.len() as int) =~= what@);
            assert(self.text@.subrange(0, off as int) + what@.subrange(0, what@.len() as int)
                =~= self.text@.subrange(0, off as int) + what@);
        }

        let new_off = off + what.len();
        self.text = v;
        self.needs_update = true;
        let nc = crate::document::coord_at(&self.text, new_off);
        proof {
            crate::document::lemma_walk_line_start(self.text@, new_off as int);
            crate::document::lemma_line_bounds(self.text@, nc.1 as int);
            crate::document::lemma_newline_count_bounds(self.text@, self.text@.len() as int);
            assert(nc.0 * self.advance_width <= MAX_TEXT * 256) by (nonlinear_arith)
                requires nc.0 <= MAX_TEXT, self.advance_width <= 256,
            ;
            assert(nc.1 * self.advance_height <= MAX_TEXT * 256) by (nonlinear_arith)
                requires nc.1 <= MAX_TEXT, self.advance_height <= 256,
            ;
        }
        self.cursor_pos = nc;
        self.cursor_offset = new_off;
        self.cursor_rect = (
            nc.0 * self.advance_width,
            nc.1 * self.advance_height,
            self.cursor_rect.2,
            self.advance_height,
        );
        let cp = self.cursor_pos;
        self.record_edit(before, cp);
        true
    }

    /// Tab inserts two spaces at the cursor.
    pub fn tab_key(&mut self) -> (r: bool)
        requires
            old(self).wf(),
            old(self).undo_stack.stack@.len() < isize::MAX,
        ensures
            final(self).wf(),
            r == true,
            tab_key_post(*old(self), *final(self)),
    {
        let mut what: Vec<char> = Vec::new();
        what.push(' ');
        what.push(' ');
        proof {
            assert(what@ =~= seq![' ', ' ']);
        }
        self.insert_at_cursor(what);
        true
    }

    /// Return inserts a line feed at the cursor; the cursor moves to the
    /// start of the new line.
    pub fn return_key(&mut self) -> (r: bool)
        requires
            old(self).wf(),
            old(self).undo_stack.stack@.len() < isize::MAX,
        ensures
            final(self).wf(),
            r == true,
            return_key_post(*old(self), *final(self)),
    {
        let mut what: Vec<char> = Vec::new();
        what.push('\n');
        proof {
            assert(what@ =~= seq!['\n']);
        }
        self.insert_at_cursor(what);
        true
    }

    /// Pastes `text` at the cursor and moves the cursor to the end of the
    /// pasted characters. Records the edit. A document that would exceed
    /// its capacity is left unchanged.
    pub fn clipboard_paste(&mut self, text: String) -> (r: bool)
        requires
            old(self).wf(),
            old(self).undo_stack.stack@.len() < isize::MAX,
        ensures
            final(self).wf(),
            r == (old(self).text@.len() + text@.len() <= MAX_TEXT),
            r ==> {
                &&& final(self).text@ == old(self).text@.subrange(
                    0,
                    old(self).cursor_offset as int,
                ) + text@ + old(self).text@.subrange(
                    old(self).cursor_offset as int,
                    old(self).text@.len() as int,
                )
                &&& final(self).cursor_offset == old(self).cursor_offset + text@.len()
                &&& (final(self).cursor_pos.0 as int, final(self).cursor_pos.1 as int) == walk_pos(
                    final(self).text@,
                    final(self).cursor_offset as int,
                )
                &&& final(self).needs_update
                &&& final(self).range_start == old(self).range_start
                &&& final(self).range_end == old(self).range_end
                &&& exists|tm: u128|
                    crate::undo::add_post(
                        old(self).undo_stack,
                        final(self).undo_stack,
                        old(self).text@,
                        final(self).text@,
                        final(self).cursor_pos,
                        tm,
                    )
            },
            !r ==> *final(self) == *old(self),
    {
        let what = chars_of_string(&text);
        self.insert_at_cursor(what)
    }

    /// Hands back the selected characters (selection end inclusive) for the
    /// host's clipboard; with no selection bound, everything from the start
    /// or to the end of the text is included.
    pub fn clipboard_copy(&self) -> (r: String)
        ensures
            r@ == extract_spec(self.text@, self.range_start, self.range_end, true),
    {
        self.copy_range_incl(self.range_start, self.range_end)
    }

    /// Cut: hands back the selected characters and deletes them, placing
    /// the cursor at the selection start. Without an active selection only
    /// the copy happens.
    pub fn clipboard_cut(&mut self) -> (r: String)
        requires
            old(self).wf(),
            old(self).undo_stack.stack@.len() < isize::MAX,
        ensures
            final(self).wf(),
            r@ == extract_spec(old(self).text@, old(self).range_start, old(self).range_end, true),
            old(self).has_selection() ==> {
                let spliced = splice_selection(
                    old(self).text@,
                    old(self).range_start->0,
                    old(self).range_end->0,
                    Seq::empty(),
                );
                &&& spliced.len() <= MAX_TEXT ==> {
                    &&& final(self).text@ == spliced
                    &&& final(self).range_start is None
                    &&& final(self).range_end is None
                    &&& final(self).needs_update
                    &&& final(self).cursor_pos.1 == clamp_line(
                        final(self).text@,
                        (old(self).range_start->0).1 as int,
                    )
                    &&& final(self).cursor_pos.0 == clamp_col(
                        final(self).text@,
                        (old(self).range_start->0).1 as int,
                        (old(self).range_start->0).0 as int,
                    )
                    &&& exists|tm: u128|
                        crate::undo::add_post(
                            old(self).undo_stack,
                            final(self).undo_stack,
                            old(self).text@,
                            final(self).text@,
                            final(self).cursor_pos,
                            tm,
                        )
                }
                &&& spliced.len() > MAX_TEXT ==> *final(self) == *old(self)
            },
            !old(self).has_selection() ==> *final(self) == *old(self),
    {
        let clip = self.copy_range_incl(self.range_start, self.range_end);
        let has_sel = match (self.range_start, self.range_end) {
            (Option::Some(_), Option::Some(_)) => true,
            _ => false,
        };
        if has_sel {
            let start = match self.range_start {
                Option::Some(st) => st,
                Option::None => (0, 0),
            };
            let mid: Vec<char> = Vec::new();
            self.replace_selection(mid, start);
        }
        clip
    }
}

/// What cursor-up does: one line up, the column preserved where possible;
/// at the first line nothing moves.
pub open spec fn cursor_up_post(pre: CodeEditor, post: CodeEditor) -> bool {
    &&& pre.cursor_pos.1 > 0 ==> {
        &&& post.cursor_pos.1 == clamp_line(pre.text@, pre.cursor_pos.1 - 1)
        &&& post.cursor_pos.0 == clamp_col(pre.text@, pre.cursor_pos.1 - 1, pre.cursor_pos.0 as int)
    }
    &&& pre.cursor_pos.1 == 0 ==> post == pre
    &&& post.text == pre.text
    &&& post.undo_stack == pre.undo_stack
}

/// What cursor-down does: one line down, clamped to the last line, the
/// column preserved where possible.
pub open spec fn cursor_down_post(pre: CodeEditor, post: CodeEditor) -> bool {
    &&& post.cursor_pos.1 == clamp_line(pre.text@, pre.cursor_pos.1 + 1)
    &&& post.cursor_pos.0 == clamp_col(pre.text@, pre.cursor_pos.1 + 1, pre.cursor_pos.0 as int)
    &&& post.text == pre.text
    &&& post.undo_stack == pre.undo_stack
}

/// What cursor-left does: one column left, wrapping to the end of the
/// previous line at a line start; with a modifier, to the line start.
pub open spec fn cursor_left_post(pre: CodeEditor, post: CodeEditor, to_line_edge: bool) -> bool {
    &&& to_line_edge ==> post.cursor_pos == (0usize, pre.cursor_pos.1) && post.cursor_offset
        == line_start(pre.text@, pre.cursor_pos.1 as int)
    &&& !to_line_edge && pre.cursor_pos.0 > 0 ==> post.cursor_pos == (
        (pre.cursor_pos.0 - 1) as usize,
        pre.cursor_pos.1,
    )
    &&& !to_line_edge && pre.cursor_pos.0 == 0 && pre.cursor_pos.1 > 0 ==> {
        &&& post.cursor_pos.1 == pre.cursor_pos.1 - 1
        &&& post.cursor_pos.0 == line_len(pre.text@, pre.cursor_pos.1 - 1)
    }
    &&& !to_line_edge && pre.cursor_pos == (0usize, 0usize) ==> post == pre
    &&& post.text == pre.text
    &&& post.undo_stack == pre.undo_stack
}

/// What cursor-right does: one column right, wrapping to the start of the
/// next line over a line feed; with a modifier, to the line end; past the
/// last character nothing moves.
pub open spec fn cursor_right_post(pre: CodeEditor, post: CodeEditor, to_line_edge: bool) -> bool {
    &&& to_line_edge ==> post.cursor_pos == (
        line_len(pre.text@, pre.cursor_pos.1 as int) as usize,
        pre.cursor_pos.1,
    )
    &&& !to_line_edge && pre.cursor_offset < pre.text@.len() && pre.text@[pre.cursor_offset as int]
        == '\n' ==> post.cursor_pos == (0usize, (pre.cursor_pos.1 + 1) as usize)
    &&& !to_line_edge && pre.cursor_offset < pre.text@.len() && pre.text@[pre.cursor_offset as int]
        != '\n' ==> post.cursor_pos == ((pre.cursor_pos.0 + 1) as usize, pre.cursor_pos.1)
        && post.cursor_offset == pre.cursor_offset + 1
    &&& !to_line_edge && pre.cursor_offset >= pre.text@.len() ==> post == pre
    &&& post.text == pre.text
    &&& post.undo_stack == pre.undo_stack
}

/// A printable key: ASCII and not a control character.
pub open spec fn printable(c: char) -> bool {
    32 <= (c as u32) < 127
}

impl CodeEditor {
    /// Cursor up one line, preserving the column where possible.
    pub fn cursor_up(&mut self)
        requires
            old(self).wf(),
        ensures
            final(self).wf(),
            cursor_up_post(*old(self), *final(self)),
    {
        if self.cursor_pos.1 > 0 {
            let col = self.cursor_pos.0;
            let line = self.cursor_pos.1;
            self.relocate_cursor(col, line - 1);
        }
    }

    /// Cursor down one line (clamped to the last line), preserving the
    /// column where possible.
    pub fn cursor_down(&mut self)
        requires
            old(self).wf(),
        ensures
            final(self).wf(),
            cursor_down_post(*old(self), *final(self)),
    {
        let col = self.cursor_pos.0;
        let line = self.cursor_pos.1;
        proof {
            crate::document::lemma_newline_count_bounds(self.text@, self.text@.len() as int);
        }
        self.relocate_cursor(col, line + 1);
    }

    /// Cursor left one character, wrapping to the end of the previous line
    /// at a line start; with a modifier, to the start of the line.
    pub fn cursor_left(&mut self, to_line_edge: bool)
        requires
            old(self).wf(),
        ensures
            final(self).wf(),
            cursor_left_post(*old(self), *final(self), to_line_edge),
    {
        let col = self.cursor_pos.0;
        let line = self.cursor_pos.1;
        if to_line_edge {
            self.relocate_cursor(0, line);
        } else if col > 0 {
            self.relocate_cursor(col - 1, line);
            proof {
                crate::document::lemma_line_bounds(self.text@, line as int);
            }
        } else if line > 0 {
            self.relocate_cursor(usize::MAX, line - 1);
            proof {
                crate::document::lemma_line_bounds(self.text@, line - 1);
            }
        }
    }

    /// Cursor right one character, wrapping to the start of the next line
    /// over a line feed; with a modifier, to the end of the line. Beyond
    /// the last character nothing moves.
    pub fn cursor_right(&mut self, to_line_edge: bool)
        requires
            old(self).wf(),
        ensures
            final(self).wf(),
            cursor_right_post(*old(self), *final(self), to_line_edge),
    {
        let col = self.cursor_pos.0;
        let line = self.cursor_pos.1;
        proof {
            crate::document::lemma_line_bounds(self.text@, line as int);
            crate::document::lemma_newline_count_bounds(self.text@, self.text@.len() as int);
        }
        if to_line_edge {
            self.relocate_cursor(usize::MAX, line);
        } else if self.cursor_offset < self.text.len() {
            let c = self.text[self.cursor_offset];
            if c == '\n' {
                proof {
                    // The cursor sits on the line feed ending its line, so
                    // the next line exists and starts one character on.
                    crate::document::lemma_walk_line_start(self.text@, self.cursor_offset as int);
                    crate::document::lemma_find_nl_skip(
                        self.text@,
                        line_start(self.text@, line as int),
                        self.cursor_offset as int,
                    );
                    crate::document::lemma_find_nl_bounds(self.text@, self.cursor_offset as int);
                    crate::document::lemma_walk_newline_count(
                        self.text@,
                        self.cursor_offset as int,
                    );
                    crate::document::lemma_count_le_newlines(
                        self.text@,
                        (self.cursor_offset + 1) as int,
                        self.text@.len() as int,
                    );
                }
                self.relocate_cursor(0, line + 1);
            } else {
                proof {
                    // The character under the cursor is not a line feed, so
                    // the line extends at least one character further.
                    crate::document::lemma_walk_line_start(self.text@, self.cursor_offset as int);
                    crate::document::lemma_find_nl_skip(
                        self.text@,
                        line_start(self.text@, line as int),
                        self.cursor_offset as int,
                    );
                    crate::document::lemma_find_nl_bounds(self.text@, self.cursor_offset as int);
                }
                self.relocate_cursor(col + 1, line);
            }
        }
    }

    /// Keyboard dispatch: named keys move the cursor or edit, printable
    /// characters are inserted (clipboard shortcuts are the host's and are
    /// only swallowed here). Returns whether anything was handled.
    pub fn key_down(&mut self, char: Option<char>, key: Option<WidgetKey>) -> (r: bool)
        requires
            old(self).wf(),
            old(self).undo_stack.stack@.len() < isize::MAX,
        ensures
            final(self).wf(),
            ({
                let blocked = (old(self).logo || old(self).ctrl) && (char == Some('c') || char
                    == Some('C') || char == Some('x') || char == Some('X') || char == Some('v')
                    || char == Some('V'));
                let edge = old(self).logo || old(self).ctrl;
                &&& blocked ==> r == true && *final(self) == *old(self)
                &&& !blocked && key == Some(WidgetKey::Delete) ==> r == true && delete_key_post(
                    *old(self),
                    *final(self),
                )
                &&& !blocked && key == Some(WidgetKey::Tab) ==> r == true && tab_key_post(
                    *old(self),
                    *final(self),
                )
                &&& !blocked && key == Some(WidgetKey::Return) ==> r == true && return_key_post(
                    *old(self),
                    *final(self),
                )
                &&& !blocked && key == Some(WidgetKey::Up) ==> r == true && cursor_up_post(
                    *old(self),
                    *final(self),
                )
                &&& !blocked && key == Some(WidgetKey::Down) ==> r == true && cursor_down_post(
                    *old(self),
                    *final(self),
                )
                &&& !blocked && key == Some(WidgetKey::Left) ==> r == true && cursor_left_post(
                    *old(self),
                    *final(self),
                    edge,
                )
                &&& !blocked && key == Some(WidgetKey::Right) ==> r == true && cursor_right_post(
                    *old(self),
                    *final(self),
                    edge,
                )
                &&& !blocked && (key is None || key == Some(WidgetKey::Escape) || key == Some(
                    WidgetKey::Space,
                )) ==> (match char {
                    Option::Some(c) => if printable(c) {
                        r == true && insert_char_post(*old(self), *final(self), c)
                    } else {
                        r == false && *final(self) == *old(self)
                    },
                    Option::None => r == false && *final(self) == *old(self),
                })
            }),
    {
        if self.logo || self.ctrl {
            if let Some(c) = char {
                if c == 'c' || c == 'C' || c == 'x' || c == 'X' || c == 'v' || c == 'V' {
                    return true;
                }
            }
        }

        if let Some(key) = key {
            match key {
                WidgetKey::Delete => {
                    return self.delete_key();
                },
                WidgetKey::Tab => {
                    return self.tab_key();
                },
                WidgetKey::Return => {
                    return self.return_key();
                },
                WidgetKey::Up => {
                    self.cursor_up();
                    return true;
                },
                WidgetKey::Down => {
                    self.cursor_down();
                    return true;
                },
                WidgetKey::Left => {
                    let edge = self.logo || self.ctrl;
                    self.cursor_left(edge);
                    return true;
                },
                WidgetKey::Right => {
                    let edge = self.logo || self.ctrl;
                    self.cursor_right(edge);
                    return true;
                },
                _ => {},
            }
        }

        if let Some(c) = char {
            let u = c as u32;
            if u >= 32 && u < 127 {
                return self.insert_char(c);
            }
        }
        false
    }
}

/// Coordinate `a` is at or before coordinate `b` in (line, column) order.
pub open spec fn coord_le(a: (usize, usize), b: (usize, usize)) -> bool {
    a.1 < b.1 || (a.1 == b.1 && a.0 <= b.0)
}

/// What char::is_alphanumeric answers for `c`: it depends on the character
/// alone.
pub uninterp spec fn is_alphanumeric_spec(c: char) -> bool;

/// A word character for double-click selection: a Unicode letter or number,
/// as the standard library classifies them.
pub open spec fn word_char(c: char) -> bool {
    is_alphanumeric_spec(c)
}

/// The leftmost column of the word-character run that reaches column `k`
/// on the line starting at `ls`.
pub open spec fn word_left(t: Seq<char>, ls: int, k: int) -> int
    decreases k,
{
    if k > 0 && word_char(t[ls + k - 1]) {
        word_left(t, ls, k - 1)
    } else {
        k
    }
}

/// The rightmost column of the word-character run that reaches column `k`,
/// on a line of length `ll`.
pub open spec fn word_right(t: Seq<char>, ls: int, k: int, ll: int) -> int
    decreases ll - k,
{
    if k + 1 < ll && word_char(t[ls + k + 1]) {
        word_right(t, ls, k + 1, ll)
    } else {
        k
    }
}

/// What a click at pixel `p` and wall-clock `time` does, consumed `r`:
/// a click outside the gesture window repositions the cursor and starts a
/// fresh (empty) selection; a second click inside the window selects the
/// word under the cursor; a third selects the whole line.
pub open spec fn mouse_down_post(
    pre: CodeEditor,
    post: CodeEditor,
    p: (usize, usize),
    time: u128,
    r: bool,
) -> bool {
    let lnwc = imin(pre.settings.line_number_width as int, 8192);
    let px0 = imin(p.0 as int, MAX_PIXEL as int);
    let px1 = if px0 < lnwc {
        lnwc
    } else {
        px0
    };
    let px = px1 - lnwc + pre.offset.0 * pre.advance_width;
    let py = imin(p.1 as int, MAX_PIXEL as int) + pre.offset.1 * pre.advance_height;
    let lt = pixel_to_line(py, pre.advance_height as int);
    let ct = pixel_to_col(px, pre.advance_width as int);
    if time > pre.last_click + GESTURE_MS {
        &&& r == true
        &&& post.cursor_pos.1 == clamp_line(pre.text@, lt)
        &&& post.cursor_pos.0 == clamp_col(pre.text@, lt, ct)
        &&& post.cursor_offset == offset_of(pre.text@, lt, ct)
        &&& post.range_buffer == post.cursor_pos
        &&& post.range_start == Option::Some(post.cursor_pos)
        &&& post.range_end is None
        &&& post.needs_update
        &&& post.last_click == time
        &&& post.click_stage == 0
        &&& post.text == pre.text
        &&& post.undo_stack == pre.undo_stack
    } else if pre.click_stage == 0 {
        let line = pre.cursor_pos.1;
        let col = pre.cursor_pos.0 as int;
        let ls = line_start(pre.text@, line as int);
        let ll = line_len(pre.text@, line as int);
        if col < ll && word_char(pre.text@[ls + col]) {
            &&& r == true
            &&& post.range_start == Option::Some((word_left(pre.text@, ls, col) as usize, line))
            &&& post.range_end == Option::Some((
                word_right(pre.text@, ls, col, ll) as usize,
                line,
            ))
            &&& post.needs_update
            &&& post.last_click == time
            &&& post.click_stage == 1
            &&& post.text == pre.text
            &&& post.cursor_pos == pre.cursor_pos
            &&& post.undo_stack == pre.undo_stack
        } else {
            r == false && post == pre
        }
    } else {
        &&& r == true
        &&& post.range_start == Option::Some((0usize, pre.cursor_pos.1))
        &&& post.range_end == Option::Some((LINE_END_COL, pre.cursor_pos.1))
        &&& post.needs_update
        &&& post.click_stage == 2
        &&& post.last_click == pre.last_click
        &&& post.text == pre.text
        &&& post.cursor_pos == pre.cursor_pos
        &&& post.undo_stack == pre.undo_stack
    }
}

/// Relies on char::is_alphanumeric: whether `c` is a Unicode letter or
/// number. On ASCII these are exactly the letter and digit ranges.
#[verifier::external_body]
fn is_alphanumeric_exec(c: char) -> (r: bool)
    ensures
        r == is_alphanumeric_spec(c),
        (c as u32) < 128 ==> r == ((97 <= c as u32 <= 122) || (65 <= c as u32 <= 90) || (48 <= c
            as u32 <= 57)),
{
    c.is_alphanumeric()
}

/// A word character for double-click selection.
fn is_word_char(c: char) -> (r: bool)
    ensures
        r == word_char(c),
{
    is_alphanumeric_exec(c)
}

impl CodeEditor {
    /// Handles a pointer press at `p`, the wall clock reading `time`.
    pub fn mouse_down_at(&mut self, p: (usize, usize), time: u128) -> (r: bool)
        requires
            old(self).wf(),
        ensures
            final(self).wf(),
            mouse_down_post(*old(self), *final(self), p, time, r),
    {
        let lnwc = if self.settings.line_number_width < 8192 {
            self.settings.line_number_width
        } else {
            8192
        };

        let stale = time > self.last_click && time - self.last_click > GESTURE_MS;

        if stale {
            let px0 = if p.0 < MAX_PIXEL {
                p.0
            } else {
                MAX_PIXEL
            };
            let px1 = if px0 < lnwc {
                lnwc
            } else {
                px0
            };
            proof {
                assert((self.offset.0 as int) * (self.advance_width as int) <= (
                self.max_offset.0 as int) * (self.advance_width as int)) by (nonlinear_arith)
                    requires 0 <= self.offset.0 <= self.max_offset.0, self.advance_width >= 1,
                ;
                assert((self.offset.1 as int) * (self.advance_height as int) <= (MAX_TEXT + 1)
                    * 256) by (nonlinear_arith)
                    requires
                        0 <= self.offset.1 <= MAX_TEXT + 1,
                        1 <= self.advance_height <= 256,
                ;
            }
            let offx = (self.offset.0 as usize) * self.advance_width;
            let offy = (self.offset.1 as usize) * self.advance_height;
            let px = px1 - lnwc + offx;
            let py0 = if p.1 < MAX_PIXEL {
                p.1
            } else {
                MAX_PIXEL
            };
            let py = py0 + offy;
            let consumed = self.set_cursor_offset_from_pos((px, py));
            proof {
                crate::document::lemma_line_bounds(self.text@, self.cursor_pos.1 as int);
                crate::document::lemma_newline_count_bounds(self.text@, self.text@.len() as int);
            }
            self.range_buffer = self.cursor_pos;
            self.range_start = Some(self.cursor_pos);
            self.range_end = None;
            self.needs_update = true;
            self.last_click = time;
            self.click_stage = 0;
            return consumed;
        }

        if self.click_stage == 0 {
            let line = self.cursor_pos.1;
            let col = self.cursor_pos.0;
            proof {
                crate::document::lemma_walk_line_start(self.text@, self.cursor_offset as int);
                crate::document::lemma_line_bounds(self.text@, line as int);
                crate::document::lemma_newline_count_bounds(self.text@, self.text@.len() as int);
            }
            let ls = self.cursor_offset - col;

            // Find the end of the cursor's line.
            let mut ll: usize = col;
            let mut j: usize = self.cursor_offset;
            while j < self.text.len() && self.text[j] != '\n'
                invariant
                    ls as int == line_start(self.text@, line as int),
                    j <= self.text@.len(),
                    ll == j - ls,
                    ls <= j,
                    forall|k: int| ls <= k < j ==> self.text@[k] != '\n',
                decreases self.text@.len() - j,
            {
                ll = ll + 1;
                j = j + 1;
            }
            proof {
                crate::document::lemma_find_nl_skip(self.text@, ls as int, j as int);
                crate::document::lemma_find_nl_bounds(self.text@, j as int);
                assert(ll as int == line_len(self.text@, line as int));
            }

            if col < ll && is_word_char(self.text[ls + col]) {
                // Scan left over the word characters.
                let mut l: usize = col;
                while l > 0 && is_word_char(self.text[ls + l - 1])
                    invariant
                        self.text@.len() <= MAX_TEXT,
                        ls as int == line_start(self.text@, line as int),
                        l <= col,
                        ls + col <= self.text@.len(),
                        word_left(self.text@, ls as int, col as int) == word_left(
                            self.text@,
                            ls as int,
                            l as int,
                        ),
                    decreases l,
                {
                    l = l - 1;
                }

                // Scan right over the word characters.
                let mut rr: usize = col;
                while rr + 1 < ll && is_word_char(self.text[ls + rr + 1])
                    invariant
                        self.text@.len() <= MAX_TEXT,
                        ls as int == line_start(self.text@, line as int),
                        ll as int == line_len(self.text@, line as int),
                        ls + ll <= self.text@.len(),
                        col <= rr < ll,
                        word_right(self.text@, ls as int, col as int, ll as int) == word_right(
                            self.text@,
                            ls as int,
                            rr as int,
                            ll as int,
                        ),
                    decreases ll - rr,
                {
                    rr = rr + 1;
                }

                proof {
                    crate::document::lemma_line_bounds(self.text@, line as int);
                }
                self.range_start = Some((l, line));
                self.range_end = Some((rr, line));
                self.needs_update = true;
                self.last_click = time;
                self.click_stage = 1;
                return true;
            }
            return false;
        }

        let line = self.cursor_pos.1;
        proof {
            crate::document::lemma_newline_count_bounds(self.text@, self.text@.len() as int);
        }
        self.range_start = Some((0, line));
        self.range_end = Some((LINE_END_COL, line));
        self.needs_update = true;
        self.click_stage = 2;
        true
    }

    /// Handles a pointer press, stamped with the wall clock. Whatever time
    /// the clock returned, the editor changed as `mouse_down_post` describes
    /// for that time.
    pub fn mouse_down(&mut self, p: (usize, usize)) -> (r: bool)
        requires
            old(self).wf(),
        ensures
            final(self).wf(),
            exists|tm: u128| mouse_down_post(*old(self), *final(self), p, tm, r),
    {
        let time = crate::clock::get_time();
        let r = self.mouse_down_at(p, time);
        proof {
            assert(mouse_down_post(*old(self), *self, p, time, r));
        }
        r
    }

    /// Pointer release: an unfinished (half-open) selection is discarded,
    /// and any drag ends.
    pub fn mouse_up(&mut self, _pos: (usize, usize)) -> (r: bool)
        requires
            old(self).wf(),
        ensures
            final(self).wf(),
            r == false,
            (old(self).range_start is None || old(self).range_end is None) ==> final(self).range_start is None && final(self).range_end is None && final(self).needs_update,
            !(old(self).range_start is None || old(self).range_end is None) ==> final(self).range_start == old(self).range_start && final(self).range_end == old(self).range_end,
            final(self).drag_pos is None,
            final(self).text == old(self).text,
            final(self).cursor_pos == old(self).cursor_pos,
            final(self).undo_stack == old(self).undo_stack,
    {
        if self.range_start.is_none() || self.range_end.is_none() {
            self.range_start = None;
            self.range_end = None;
            self.needs_update = true;
        }
        self.drag_pos = None;
        false
    }

    /// What a pointer drag to `pos` does: the cursor follows the clamped
    /// pixel position, and the anchor recorded at the press and the live
    /// cursor become the selection, normalized so that the earlier of the
    /// two starts it (the end column stepping one back, inclusive-wise).
    pub open spec fn mouse_dragged_post(pre: CodeEditor, post: CodeEditor, pos: (usize, usize)) -> bool {
        let lnwc = imin(pre.settings.line_number_width as int, 8192);
        let px0 = imin(pos.0 as int, MAX_PIXEL as int);
        let px1 = if px0 < lnwc {
            lnwc
        } else {
            px0
        };
        let px = px1 - lnwc + pre.offset.0 * pre.advance_width;
        let py = imin(pos.1 as int, MAX_PIXEL as int) + pre.offset.1 * pre.advance_height;
        let lt = pixel_to_line(py, pre.advance_height as int);
        let ct = pixel_to_col(px, pre.advance_width as int);
        let cp = post.cursor_pos;
        let rb = pre.range_buffer;
        &&& cp.1 == clamp_line(pre.text@, lt)
        &&& cp.0 == clamp_col(pre.text@, lt, ct)
        &&& post.cursor_offset == offset_of(pre.text@, lt, ct)
        &&& post.drag_pos == Option::Some(
            ((px1 as usize, imin(pos.1 as int, MAX_PIXEL as int) as usize)),
        )
        &&& post.needs_update
        &&& if (cp.1 == rb.1 && cp.0 <= rb.0) || cp.1 < rb.1 {
            let cand = ((if rb.0 > 0 {
                (rb.0 - 1) as usize
            } else {
                0usize
            }), rb.1);
            post.range_start == Option::Some(cp) && post.range_end == Option::Some(
                (if coord_le(cp, cand) {
                    cand
                } else {
                    cp
                }),
            )
        } else if pre.range_end is Some {
            post.range_start == Option::Some(rb) && post.range_end == Option::Some(
                (((if cp.0 > 0 {
                    (cp.0 - 1) as usize
                } else {
                    0usize
                }), cp.1)),
            )
        } else {
            let cand = ((if cp.0 > 0 {
                (cp.0 - 1) as usize
            } else {
                0usize
            }), cp.1);
            post.range_start == pre.range_start && post.range_end == Option::Some(
                (match pre.range_start {
                    Option::Some(st) => if coord_le(st, cand) {
                        cand
                    } else {
                        st
                    },
                    Option::None => cand,
                }),
            )
        }
        &&& post.text == pre.text
        &&& post.undo_stack == pre.undo_stack
        &&& post.offset == pre.offset
        &&& post.max_offset == pre.max_offset
    }

    /// Pointer drag: recomputes the cursor from the pixel position and
    /// normalizes the selection so that the drag anchor and the live cursor
    /// always form an ordered start/end pair, whatever the drag direction.
    pub fn mouse_dragged(&mut self, pos: (usize, usize)) -> (r: bool)
        requires
            old(self).wf(),
        ensures
            final(self).wf(),
            r == true,
            Self::mouse_dragged_post(*old(self), *final(self), pos),
    {
        let lnwc = if self.settings.line_number_width < 8192 {
            self.settings.line_number_width
        } else {
            8192
        };
        let px0 = if pos.0 < MAX_PIXEL {
            pos.0
        } else {
            MAX_PIXEL
        };
        let px1 = if px0 < lnwc {
            lnwc
        } else {
            px0
        };
        proof {
            assert((self.offset.0 as int) * (self.advance_width as int) <= (
            self.max_offset.0 as int) * (self.advance_width as int)) by (nonlinear_arith)
                requires 0 <= self.offset.0 <= self.max_offset.0, self.advance_width >= 1,
            ;
            assert((self.offset.1 as int) * (self.advance_height as int) <= (MAX_TEXT + 1) * 256)
                by (nonlinear_arith)
                requires 0 <= self.offset.1 <= MAX_TEXT + 1, 1 <= self.advance_height <= 256,
            ;
        }
        let offx = (self.offset.0 as usize) * self.advance_width;
        let offy = (self.offset.1 as usize) * self.advance_height;
        let px = px1 - lnwc + offx;
        let py0 = if pos.1 < MAX_PIXEL {
            pos.1
        } else {
            MAX_PIXEL
        };
        let py = py0 + offy;
        let consumed = self.set_cursor_offset_from_pos((px, py));

        proof {
            crate::document::lemma_line_bounds(self.text@, self.cursor_pos.1 as int);
            crate::document::lemma_newline_count_bounds(self.text@, self.text@.len() as int);
        }

        let cp = self.cursor_pos;
        let rb = self.range_buffer;
        if (cp.1 == rb.1 && cp.0 <= rb.0) || cp.1 < rb.1 {
            self.range_start = Some(cp);
            let e0 = if rb.0 > 0 {
                rb.0 - 1
            } else {
                0
            };
            let cand = (e0, rb.1);
            let e = if cp.1 < cand.1 || (cp.1 == cand.1 && cp.0 <= cand.0) {
                cand
            } else {
                cp
            };
            self.range_end = Some(e);
        } else {
            if self.range_end.is_some() {
                self.range_start = Some(rb);
                let e0 = if cp.0 > 0 {
                    cp.0 - 1
                } else {
                    0
                };
                self.range_end = Some((e0, cp.1));
            } else {
                let e0 = if cp.0 > 0 {
                    cp.0 - 1
                } else {
                    0
                };
                let cand = (e0, cp.1);
                let e = match self.range_start {
                    Option::Some(st) => if st.1 < cand.1 || (st.1 == cand.1 && st.0 <= cand.0) {
                        cand
                    } else {
                        st
                    },
                    Option::None => cand,
                };
                self.range_end = Some(e);
            }
        }

        self.drag_pos = Some((px1, py0));
        self.needs_update = true;
        consumed
    }
}

/// The measure pass over the first `n` characters: the advance-width sum of
/// the current (unterminated) line, and the widest line completed so far.
pub open spec fn measure_pair(
    t: Seq<char>,
    entries: Seq<GlyphEntry>,
    aw: int,
    n: int,
) -> (int, int)
    decreases n,
{
    if n <= 0 {
        (0, 0)
    } else {
        let p = measure_pair(t, entries, aw, n - 1);
        if t[n - 1] == '\n' {
            (0, if p.0 > p.1 {
                p.0
            } else {
                p.1
            })
        } else {
            (p.0 + advance_spec(entries, t[n - 1], aw), p.1)
        }
    }
}

/// The maximum line width of the text in pixels: each character measured by
/// its cached glyph advance, the plain advance width standing in for
/// missing glyphs.
pub open spec fn measured_width(t: Seq<char>, entries: Seq<GlyphEntry>, aw: int) -> int {
    let p = measure_pair(t, entries, aw, t.len() as int);
    if p.0 > p.1 {
        p.0
    } else {
        p.1
    }
}

impl CodeEditor {
    /// Re-layout and repaint: measures every line from the cached glyph
    /// advances, reallocates both surfaces to fit, then paints the token
    /// stream the host's scanner produced over the current text. A no-op
    /// while the output is not stale or no font metrics are set, so calling
    /// it twice without an intervening mutation changes nothing.
    pub fn process_text(&mut self, tokens: &Vec<Token>)
        requires
            old(self).wf(),
        ensures
            final(self).wf(),
            !old(self).needs_update ==> *final(self) == *old(self),
            !old(self).font_loaded ==> *final(self) == *old(self),
            old(self).needs_update && old(self).font_loaded ==> ({
                let sw = measured_width(
                    old(self).text@,
                    old(self).glyphs.entries@,
                    old(self).advance_width as int,
                );
                let sh = total_lines(old(self).text@) * old(self).advance_height;
                let lnw = imin(old(self).settings.line_number_width as int, 8192);
                &&& !final(self).needs_update
                &&& final(self).max_offset.0 == sw / old(self).advance_width as int
                &&& final(self).max_offset.1 == total_lines(old(self).text@)
                &&& final(self).text_buffer_size.0 == imin(sw, 8192)
                &&& final(self).text_buffer_size.1 == imin(sh, 65536)
                &&& final(self).line_numbers_size.0 == lnw
                &&& final(self).line_numbers_size.1 == imin(sh, 65536)
                &&& final(self).text_buffer@.len() == imin(sw, 8192) * imin(sh, 65536) * 4
                &&& final(self).line_numbers_buffer@.len() == lnw * imin(sh, 65536) * 4
                &&& tokens@.len() == 0 ==> (forall|i: int|
                    0 <= i < final(self).text_buffer@.len() ==> final(self).text_buffer@[i] == 0)
                    && (forall|i: int|
                    0 <= i < final(self).line_numbers_buffer@.len() ==> final(self).line_numbers_buffer@[i] == 0)
            }),
            final(self).text == old(self).text,
            final(self).cursor_pos == old(self).cursor_pos,
            final(self).cursor_offset == old(self).cursor_offset,
            final(self).range_start == old(self).range_start,
            final(self).range_end == old(self).range_end,
            final(self).undo_stack == old(self).undo_stack,
            final(self).mode == old(self).mode,
            final(self).theme == old(self).theme,
            final(self).glyphs == old(self).glyphs,
            final(self).font_loaded == old(self).font_loaded,
            final(self).drag_pos == old(self).drag_pos,
    {
        if !self.needs_update {
            return;
        }
        if !self.font_loaded {
            return;
        }

        let aw = self.advance_width;
        let ah = self.advance_height;
        let fs = self.font_size;

        // Pass 1 (measure): per-line advance widths and the line count.
        let n = self.text.len();
        let mut sw: usize = 0;
        let mut lw: usize = 0;
        let mut xcount: usize = 0;
        let mut nl: usize = 0;
        let mut i: usize = 0;
        while i < n
            invariant
                self.glyphs.wf(),
                aw == self.advance_width,
                2 <= aw <= 256,
                n == self.text@.len(),
                n <= MAX_TEXT,
                i <= n,
                nl as int == crate::document::newline_count(self.text@, i as int),
                nl <= i,
                lw <= 256 * i,
                sw <= 256 * n,
                xcount <= i,
                (lw as int, sw as int) == measure_pair(
                    self.text@,
                    self.glyphs.entries@,
                    aw as int,
                    i as int,
                ),
            decreases n - i,
        {
            let c = self.text[i];
            if c == '\n' {
                if lw > sw {
                    sw = lw;
                }
                lw = 0;
                xcount = 0;
                nl = nl + 1;
            } else {
                let adv = self.glyphs.advance_of(c, aw);
                lw = lw + adv;
                xcount = xcount + 1;
            }
            i = i + 1;
        }
        if lw > sw {
            sw = lw;
        }
        let lines = nl + 1;
        self.last_pos = (xcount, nl);
        proof {
            assert(sw <= 256 * MAX_TEXT);
            assert(lines * ah <= (MAX_TEXT + 1) * 256) by (nonlinear_arith)
                requires lines <= MAX_TEXT + 1, ah <= 256,
            ;
        }
        let sh = lines * ah;

        self.max_offset = (sw / aw, lines);
        proof {
            assert((sw / aw) * aw <= sw) by (nonlinear_arith)
                requires aw >= 1, sw >= 0,
            ;
        }
        if self.offset.0 > (sw / aw) as isize {
            self.offset.0 = (sw / aw) as isize;
        }
        if self.offset.1 > lines as isize {
            self.offset.1 = lines as isize;
        }

        // Allocate the two surfaces, clamped to the supported pixel sizes.
        let tw = if sw < 8192 {
            sw
        } else {
            8192
        };
        let th = if sh < 65536 {
            sh
        } else {
            65536
        };
        let lnw = if self.settings.line_number_width < 8192 {
            self.settings.line_number_width
        } else {
            8192
        };
        proof {
            assert(tw * th * 4 <= 8192 * 65536 * 4) by (nonlinear_arith)
                requires tw <= 8192, th <= 65536,
            ;
            assert(lnw * th * 4 <= 8192 * 65536 * 4) by (nonlinear_arith)
                requires lnw <= 8192, th <= 65536,
            ;
        }
        let mut code = zero_vec(tw * th * 4);
        let mut gutter = zero_vec(lnw * th * 4);
        let ghost code0 = code@;
        let ghost gutter0 = gutter@;

        // Pass 2 (paint): walk the token stream with a pen position.
        let selection_color: [u8; 4] = [45, 133, 200, 255];
        let mut x: usize = 0;
        let mut y: usize = 0;
        let mut line_number: usize = 1;
        let mut number_printed: usize = 0;
        let mut ti: usize = 0;
        while ti < tokens.len()
            invariant
                self.glyphs.wf(),
                aw == self.advance_width,
                ah == self.advance_height,
                fs == self.font_size,
                2 <= aw <= 256,
                1 <= ah <= 256,
                fs <= 256,
                tw <= 8192,
                th <= 65536,
                lnw <= 8192,
                code@.len() == tw * th * 4,
                gutter@.len() == lnw * th * 4,
                x <= 0x10000000,
                y <= 0x10000000,
                ti <= tokens@.len(),
                1 <= line_number,
                tokens@.len() == 0 ==> code@ == code0 && gutter@ == gutter0,
            decreases tokens@.len() - ti,
        {
            let tk = &tokens[ti];
            match tk.kind {
                TokenKind::LineFeed => {
                    if lnw >= 1 {
                        let tc = self.gutter_number_color(line_number);
                        let gw = if lnw > 20 {
                            lnw - 20
                        } else {
                            0
                        };
                        draw_text_rect(
                            &mut gutter,
                            &(0, y, gw, ah),
                            lnw,
                            fs,
                            &self.glyphs,
                            line_number,
                            &tc,
                            &self.theme.background,
                        );
                    }
                    number_printed = line_number;
                    if x == 0 && tw >= 1 {
                        if self.inside_selection(0, y / ah) {
                            blend_rect(&mut code, &(x, y, aw / 2, ah), tw, &selection_color);
                        }
                    }
                    x = 0;
                    if y + ah <= 0x10000000 {
                        y = y + ah;
                    }
                    if line_number < usize::MAX {
                        line_number = line_number + 1;
                    }
                },
                TokenKind::Space => {
                    if tw >= 1 && self.inside_selection(x / aw, y / ah) {
                        blend_rect(&mut code, &(x, y, aw, ah), tw, &selection_color);
                    }
                    if x + aw <= 0x10000000 {
                        x = x + aw;
                    }
                },
                TokenKind::Eof => {
                    if number_printed != line_number && lnw >= 1 {
                        let tc = self.gutter_number_color(line_number);
                        let gw = if lnw > 20 {
                            lnw - 20
                        } else {
                            0
                        };
                        draw_text_rect(
                            &mut gutter,
                            &(0, y, gw, ah),
                            lnw,
                            fs,
                            &self.glyphs,
                            line_number,
                            &tc,
                            &self.theme.background,
                        );
                    }
                    break;
                },
                _ => {
                    let cl = classify(&self.theme, tk.kind, self.mode);
                    if cl.1 {
                        let color = cl.0;
                        let mut ci: usize = 0;
                        while ci < tk.lexeme.len()
                            invariant
                                self.glyphs.wf(),
                                aw == self.advance_width,
                                fs == self.font_size,
                                2 <= aw <= 256,
                                1 <= ah <= 256,
                                fs <= 256,
                                tw <= 8192,
                                th <= 65536,
                                lnw <= 8192,
                                code@.len() == tw * th * 4,
                                gutter@.len() == lnw * th * 4,
                                x <= 0x10000000,
                                y <= 0x10000000,
                                ci <= tk.lexeme@.len(),
                            decreases tk.lexeme@.len() - ci,
                        {
                            let c = tk.lexeme[ci];
                            match self.glyphs.find(c) {
                                Option::Some(gi) => {
                                    let mut bcolor = self.theme.background;
                                    if tw >= 1 {
                                        if self.inside_selection(x / aw, y / ah) {
                                            bcolor = selection_color;
                                            blend_rect(
                                                &mut code,
                                                &(x, y, aw, ah),
                                                tw,
                                                &selection_color,
                                            );
                                        }
                                        let e = &self.glyphs.entries[gi];
                                        blit_glyph(
                                            &mut code,
                                            tw,
                                            x,
                                            y,
                                            fs,
                                            &e.metrics,
                                            &e.bitmap,
                                            &color,
                                            &bcolor,
                                        );
                                    }
                                    if x + aw <= 0x10000000 {
                                        x = x + aw;
                                    }
                                },
                                Option::None => {},
                            }
                            ci = ci + 1;
                        }
                    }
                },
            }
            ti = ti + 1;
        }

        self.line_numbers_buffer = gutter;
        self.line_numbers_size = (lnw, th);
        self.text_buffer = code;
        self.text_buffer_size = (tw, th);
        self.needs_update = false;
    }

    /// The color a gutter line number is drawn in: the error color when the
    /// diagnostic names this line, else the line-number color.
    fn gutter_number_color(&self, line_number: usize) -> (r: [u8; 4])
        ensures
            r == (match self.error {
                Option::Some(e) => match e.1 {
                    Option::Some(el) => if el == line_number {
                        self.theme.error
                    } else {
                        self.theme.line_numbers
                    },
                    Option::None => self.theme.line_numbers,
                },
                Option::None => self.theme.line_numbers,
            }),
    {
        match &self.error {
            Option::Some(e) => match e.1 {
                Option::Some(el) => if el == line_number {
                    self.theme.error
                } else {
                    self.theme.line_numbers
                },
                Option::None => self.theme.line_numbers,
            },
            Option::None => self.theme.line_numbers,
        }
    }
}

impl CodeEditor {
    /// Paints the editor into the host frame: re-layouts if stale, applies
    /// drag autoscroll, then draws the background, the gutter, the code
    /// body and the cursor, each clipped so that no byte outside `rect`
    /// ever changes.
    #[verifier::rlimit(80)]
    pub fn draw(
        &mut self,
        frame: &mut Vec<u8>,
        rect: (usize, usize, usize, usize),
        stride: usize,
        tokens: &Vec<Token>,
    )
        requires
            old(self).wf(),
            stride >= 1,
            rect.0 + rect.2 <= 0x20000000,
            rect.1 + rect.3 <= 0x20000000,
        ensures
            final(self).wf(),
            final(frame)@.len() == old(frame)@.len(),
            forall|k: int|
                0 <= k < old(frame)@.len() && final(frame)@[k] != old(frame)@[k] ==> rect_writes(
                    rect,
                    stride as int,
                    old(frame)@.len() as int,
                    k,
                ),
            old(self).font_loaded && old(self).drag_pos is None ==> !final(self).needs_update,
            final(self).text == old(self).text,
            final(self).undo_stack == old(self).undo_stack,
            final(self).rect == rect,
            old(self).drag_pos is None ==> final(self).cursor_pos == old(self).cursor_pos
                && final(self).cursor_offset == old(self).cursor_offset && final(self).range_start
                == old(self).range_start && final(self).range_end == old(self).range_end
                && final(self).drag_pos is None,
            !old(self).needs_update && old(self).drag_pos is None ==> *final(self) == (CodeEditor {
                rect: rect,
                ..*old(self)
            }),
            old(self).drag_pos is Some && !old(self).needs_update ==> ({
                let d = old(self).drag_pos->0;
                let down = rect.1 + rect.3 >= 50 && d.1 >= rect.1 + rect.3 - 50;
                let up = !down && d.1 <= rect.1 + 50;
                &&& down && old(self).offset.1 < old(self).max_offset.1
                    ==> Self::mouse_dragged_post(
                    (CodeEditor {
                        offset: (old(self).offset.0, (old(self).offset.1 + 1) as isize),
                        ..*old(self)
                    }),
                    (CodeEditor { rect: old(self).rect, ..*final(self) }),
                    d,
                )
                &&& down && old(self).offset.1 >= old(self).max_offset.1 ==> *final(self)
                    == (CodeEditor { rect: rect, ..*old(self) })
                &&& up && old(self).offset.1 > 0 ==> Self::mouse_dragged_post(
                    (CodeEditor {
                        offset: (old(self).offset.0, (old(self).offset.1 - 1) as isize),
                        ..*old(self)
                    }),
                    (CodeEditor { rect: old(self).rect, ..*final(self) }),
                    d,
                )
                &&& up && old(self).offset.1 <= 0 ==> *final(self) == (CodeEditor {
                    rect: rect,
                    ..*old(self)
                })
                &&& !down && !up ==> *final(self) == (CodeEditor { rect: rect, ..*old(self) })
            }),
            ({
                let lns0 = final(self).line_numbers_size.0 as int;
                let cw = if rect.2 > final(self).line_numbers_size.0 {
                    rect.2 - lns0
                } else {
                    0
                };
                let cbx = rect.0 + lns0 + final(self).cursor_rect.0 - final(self).offset.0
                    * final(self).advance_width;
                let cby = rect.1 + final(self).cursor_rect.1 - final(self).offset.1 * final(self).advance_height;
                forall|px: int, py: int|
                    cbx <= px < cbx + final(self).cursor_rect.2 && cby <= py < cby + final(self).cursor_rect.3 && rect.0 + lns0 <= px < rect.0 + lns0 + cw && rect.1 <= py
                        < rect.1 + rect.3 && #[trigger] pixel_in_frame(
                        stride as int,
                        old(frame)@.len() as int,
                        px,
                        py,
                    ) ==> pixel_set(
                        final(frame)@,
                        stride as int,
                        px,
                        py,
                        final(self).theme.cursor@,
                    )
            }),
            ({
                let ln = old(frame)@.len() as int;
                let lns = final(self).line_numbers_size;
                let gw = if rect.2 < 95 {
                    rect.2 as int
                } else {
                    95
                };
                let offx = final(self).offset.0 * final(self).advance_width;
                let offy = final(self).offset.1 * final(self).advance_height;
                let by = rect.1 - offy;
                let cx0 = rect.0 + lns.0 - offx;
                let cbx = rect.0 + lns.0 + final(self).cursor_rect.0 - offx;
                let cby = rect.1 + final(self).cursor_rect.1 - offy;
                forall|px: int, py: int|
                    rect.0 <= px < rect.0 + rect.2 && rect.1 <= py < rect.1 + rect.3 && !(rect.0
                        <= px < rect.0 + gw) && !(rect.0 <= px < rect.0 + lns.0 && by <= py < by
                        + lns.1) && !(cx0 <= px < cx0 + final(self).text_buffer_size.0 && by <= py
                        < by + final(self).text_buffer_size.1) && !(cbx <= px < cbx + final(self).cursor_rect.2 && cby <= py < cby + final(self).cursor_rect.3)
                        && #[trigger] pixel_in_frame(stride as int, ln, px, py) ==> pixel_set(
                        final(frame)@,
                        stride as int,
                        px,
                        py,
                        final(self).theme.background@,
                    )
            }),
    {
        self.process_text(tokens);

        // Drag autoscroll: one line per frame toward the pointer when it
        // hovers the 50-pixel band at the top or bottom of the viewport.
        if let Some(dp) = self.drag_pos {
            let bottom = rect.1 + rect.3;
            if bottom >= 50 && dp.1 >= bottom - 50 {
                if (self.offset.1 as usize) < self.max_offset.1 {
                    self.offset.1 = self.offset.1 + 1;
                    self.mouse_dragged(dp);
                }
            } else if dp.1 <= rect.1 + 50 {
                if self.offset.1 > 0 {
                    self.offset.1 = self.offset.1 - 1;
                    self.mouse_dragged(dp);
                }
            }
        }

        self.rect = rect;

        let len0: usize = frame.len();
        let ghost f0 = frame@;

        draw_rect(frame, &rect, stride, &self.theme.background);
        let ghost f1 = frame@;

        let gw = if rect.2 < 95 {
            rect.2
        } else {
            95
        };
        let gutter_bg = (rect.0, rect.1, gw, rect.3);
        draw_rect(frame, &gutter_bg, stride, &self.theme.line_numbers_bg);
        let ghost f2 = frame@;

        proof {
            assert((self.offset.0 as int) * (self.advance_width as int) <= (
            self.max_offset.0 as int) * (self.advance_width as int)) by (nonlinear_arith)
                requires 0 <= self.offset.0 <= self.max_offset.0, self.advance_width >= 1,
            ;
            assert((self.offset.1 as int) * (self.advance_height as int) <= (MAX_TEXT + 1) * 256)
                by (nonlinear_arith)
                requires 0 <= self.offset.1 <= MAX_TEXT + 1, 1 <= self.advance_height <= 256,
            ;
        }
        let offx = (self.offset.0 as usize) * self.advance_width;
        let offy = (self.offset.1 as usize) * self.advance_height;

        let lns = self.line_numbers_size;
        let x: isize = (self.line_numbers_size.0 + rect.0) as isize - offx as isize;
        let y: isize = rect.1 as isize - offy as isize;

        // Line numbers.
        blend_slice_safe(
            frame,
            &self.line_numbers_buffer,
            &(rect.0 as isize, y, lns.0, lns.1),
            stride,
            &rect,
        );
        let ghost f3 = frame@;

        // Code body, clipped right of the gutter.
        let cw = if rect.2 > lns.0 {
            rect.2 - lns.0
        } else {
            0
        };
        let code_safe = (rect.0 + lns.0, rect.1, cw, rect.3);
        blend_slice_safe(
            frame,
            &self.text_buffer,
            &(x, y, self.text_buffer_size.0, self.text_buffer_size.1),
            stride,
            &code_safe,
        );
        let ghost f4 = frame@;

        // Cursor.
        proof {
            crate::document::lemma_line_bounds(self.text@, self.cursor_pos.1 as int);
            crate::document::lemma_newline_count_bounds(self.text@, self.text@.len() as int);
            assert(self.cursor_pos.0 * self.advance_width <= MAX_TEXT * 256) by (nonlinear_arith)
                requires self.cursor_pos.0 <= MAX_TEXT, self.advance_width <= 256,
            ;
            assert(self.cursor_pos.1 * self.advance_height <= MAX_TEXT * 256) by (nonlinear_arith)
                requires self.cursor_pos.1 <= MAX_TEXT, self.advance_height <= 256,
            ;
        }
        let cx: isize = (rect.0 + lns.0 + self.cursor_rect.0) as isize - offx as isize;
        let cy: isize = (rect.1 + self.cursor_rect.1) as isize - offy as isize;
        draw_rect_safe(
            frame,
            &(cx, cy, self.cursor_rect.2, self.cursor_rect.3),
            stride,
            &self.theme.cursor,
            &code_safe,
        );

        proof {
            let sl = stride as int;
            let ln = f0.len() as int;
            let lns0 = self.line_numbers_size.0 as int;
            let cw = if rect.2 > self.line_numbers_size.0 {
                rect.2 - lns0
            } else {
                0int
            };
            let cbx = rect.0 + lns0 + self.cursor_rect.0 - self.offset.0 * self.advance_width;
            let cby = rect.1 + self.cursor_rect.1 - self.offset.1 * self.advance_height;
            assert forall|px: int, py: int|
                cbx <= px < cbx + self.cursor_rect.2 && cby <= py < cby + self.cursor_rect.3
                    && rect.0 + lns0 <= px < rect.0 + lns0 + cw && rect.1 <= py < rect.1 + rect.3
                    && #[trigger] pixel_in_frame(sl, ln, px, py) implies pixel_set(
                frame@,
                sl,
                px,
                py,
                self.theme.cursor@,
            ) by {
                assert(cx as int == cbx);
                assert(cy as int == cby);
                assert(in_rect_at((cx, cy, self.cursor_rect.2, self.cursor_rect.3), px, py));
                assert(in_rect(code_safe, px, py));
            }
            let offxi = self.offset.0 * self.advance_width;
            let offyi = self.offset.1 * self.advance_height;
            let by = rect.1 - offyi;
            let cx0 = rect.0 + lns0 - offxi;
            let gwi = if rect.2 < 95 {
                rect.2 as int
            } else {
                95int
            };
            assert forall|px: int, py: int|
                rect.0 <= px < rect.0 + rect.2 && rect.1 <= py < rect.1 + rect.3 && !(rect.0 <= px
                    < rect.0 + gwi) && !(rect.0 <= px < rect.0 + lns0 && by <= py < by
                    + self.line_numbers_size.1) && !(cx0 <= px < cx0 + self.text_buffer_size.0
                    && by <= py < by + self.text_buffer_size.1) && !(cbx <= px < cbx
                    + self.cursor_rect.2 && cby <= py < cby + self.cursor_rect.3)
                    && #[trigger] pixel_in_frame(sl, ln, px, py) implies pixel_set(
                frame@,
                sl,
                px,
                py,
                self.theme.background@,
            ) by {
                // Painted by the background fill, then untouched by every
                // later, excluded composite.
                assert(in_rect(rect, px, py));
                assert(pixel_set(f1, sl, px, py, self.theme.background@));
                assert(!in_rect(gutter_bg, px, py));
                lemma_outside_rect_unchanged(f2, f1, gutter_bg, sl, px, py);
                assert(!in_rect_at((rect.0 as isize, y, lns.0, lns.1), px, py));
                lemma_outside_clipped_unchanged(
                    f3,
                    f2,
                    (rect.0 as isize, y, lns.0, lns.1),
                    rect,
                    sl,
                    px,
                    py,
                );
                assert(!in_rect_at(
                    (x, y, self.text_buffer_size.0, self.text_buffer_size.1),
                    px,
                    py,
                ));
                lemma_outside_clipped_unchanged(
                    f4,
                    f3,
                    (x, y, self.text_buffer_size.0, self.text_buffer_size.1),
                    code_safe,
                    sl,
                    px,
                    py,
                );
                assert(!in_rect_at((cx, cy, self.cursor_rect.2, self.cursor_rect.3), px, py));
                lemma_outside_clipped_unchanged(
                    frame@,
                    f4,
                    (cx, cy, self.cursor_rect.2, self.cursor_rect.3),
                    code_safe,
                    sl,
                    px,
                    py,
                );
                assert forall|j: int| 0 <= j < 4 implies #[trigger] frame@[crate::draw2d::pixel_idx(
                    sl,
                    px,
                    py,
                ) + j] == self.theme.background@[j] by {
                    assert(f1[crate::draw2d::pixel_idx(sl, px, py) + j]
                        == self.theme.background@[j]);
                    assert(f2[crate::draw2d::pixel_idx(sl, px, py) + j] == f1[
                        crate::draw2d::pixel_idx(sl, px, py) + j]);
                    assert(f3[crate::draw2d::pixel_idx(sl, px, py) + j] == f2[
                        crate::draw2d::pixel_idx(sl, px, py) + j]);
                    assert(f4[crate::draw2d::pixel_idx(sl, px, py) + j] == f3[
                        crate::draw2d::pixel_idx(sl, px, py) + j]);
                    assert(frame@[crate::draw2d::pixel_idx(sl, px, py) + j] == f4[
                        crate::draw2d::pixel_idx(sl, px, py) + j]);
                }
            }
            lemma_rect_writes_subset(gutter_bg, rect, stride as int, f0.len() as int);
            lemma_rect_writes_subset(code_safe, rect, stride as int, f0.len() as int);
            assert forall|k: int|
                0 <= k < f0.len() && frame@[k] != f0[k] implies rect_writes(
                rect,
                stride as int,
                f0.len() as int,
                k,
            ) by {
                if f1[k] != f0[k] {
                } else if f2[k] != f1[k] {
                } else if f3[k] != f2[k] {
                } else if f4[k] != f3[k] {
                } else {
                }
            }
        }
    }
}

/// Law: inserting a printable character at the cursor and then deleting it
/// with backspace restores both the original text and the original cursor
/// coordinate. The clamped coordinate forms in `insert_char`'s contract
/// resolve to exactly one column right of the old cursor, and `delete_key`
/// then removes the inserted character and walks back onto the old
/// position.
pub proof fn lemma_insert_delete_round_trip(t: Seq<char>, off: int, col: int, line: int, c: char)
    requires
        0 <= off <= t.len(),
        t.len() < MAX_TEXT,
        c != '\n',
        walk_pos(t, off) == (col, line),
    ensures
        ({
            let t1 = t.insert(off, c);
            &&& clamp_line(t1, line) == line
            &&& clamp_col(t1, line, col + 1) == col + 1
            &&& offset_of(t1, line, col + 1) == off + 1
            &&& t1.remove(off) == t
            &&& walk_pos(t1.remove(off), off) == (col, line)
        }),
{
    let t1 = t.insert(off, c);
    assert(t1.remove(off) =~= t);
    crate::document::lemma_walk_prefix(t1, t, off);
    assert(walk_pos(t1, off) == (col, line));
    assert(t1[off] == c);
    assert(walk_pos(t1, off + 1) == (col + 1, line));
    crate::document::lemma_walk_newline_count(t1, off + 1);
    crate::document::lemma_count_le_newlines(t1, off + 1, t1.len() as int);
    assert(line < total_lines(t1));
    crate::document::lemma_walk_within_line(t1, off + 1);
    assert(col + 1 <= line_len(t1, line));
    crate::document::lemma_walk_line_start(t1, off + 1);
    assert(line_start(t1, line) == off - col);
}

/// Law: an edit that records the current document text as its undo
/// snapshot keeps the undo chain rooted at `base` intact, and the document
/// text afterwards is what the stack now holds at its index. Together with
/// the stack laws this gives the editor-level reading: undo repeated back
/// to the bottom restores `base`, and redo replayed forward restores the
/// final text.
pub proof fn lemma_edit_keeps_undo_chain(
    pre: CodeEditor,
    post: CodeEditor,
    p: (usize, usize),
    tm: u128,
    base: Seq<char>,
)
    requires
        stack_wf(pre.undo_stack),
        crate::undo::chained_upto(pre.undo_stack.stack@, base, pre.undo_stack.index + 1),
        crate::undo::text_at(pre.undo_stack.stack@, base, pre.undo_stack.index as int)
            == pre.text@,
        crate::undo::add_post(pre.undo_stack, post.undo_stack, pre.text@, post.text@, p, tm),
    ensures
        crate::undo::chained_upto(post.undo_stack.stack@, base, post.undo_stack.index + 1),
        crate::undo::text_at(post.undo_stack.stack@, base, post.undo_stack.index as int)
            == post.text@,
{
    crate::undo::lemma_add_preserves_chain(
        pre.undo_stack,
        post.undo_stack,
        pre.text@,
        post.text@,
        p,
        tm,
        base,
    );
}

} // verus!
