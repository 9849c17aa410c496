//! Tokens produced by the scanner collaborator. The host runs the scanner
//! over the full text and hands the resulting stream to the renderer; this
//! core only colors tokens by kind and mode.

use vstd::prelude::*;
use crate::theme::Theme;
use crate::editor::CodeEditorMode;

verus! {

/// The token kinds the renderer distinguishes.
#[derive(PartialEq, Eq, Structural, Debug, Copy, Clone)]
pub enum TokenKind {
    LineFeed,
    Space,
    Eof,
    Identifier,
    SingleLineComment,
    HexColor,
    Number,
    Quoted,
    KeywordWhile,
    KeywordFor,
    KeywordIf,
    KeywordElse,
    KeywordLet,
    KeywordFun,
    KeywordPrint,
    Quotation,
    LeftBrace,
    RightBrace,
    LeftParen,
    RightParen,
    Dollar,
    Other,
}

/// One token: its kind and the characters it spans.
pub struct Token {
    pub kind: TokenKind,
    pub lexeme: Vec<char>,
}

/// The color a token paints in, and whether its glyphs are drawn at all,
/// as a pure function of kind and editor mode: identifiers, comments,
/// numbers, strings and keywords are colored distinctly only in code modes;
/// brackets always; everything else falls back to the plain text color.
pub open spec fn classify_spec(theme: Theme, kind: TokenKind, mode: CodeEditorMode) -> (
    [u8; 4],
    bool,
) {
    let code = mode == CodeEditorMode::Rhai || mode == CodeEditorMode::Settings;
    let rhai = mode == CodeEditorMode::Rhai;
    match kind {
        TokenKind::LineFeed => (theme.text, false),
        TokenKind::Space => (theme.text, false),
        TokenKind::Eof => (theme.text, false),
        TokenKind::Identifier => if code {
            (theme.identifier, true)
        } else {
            (theme.text, true)
        },
        TokenKind::SingleLineComment => if code {
            (theme.comments, true)
        } else {
            (theme.text, true)
        },
        TokenKind::HexColor => if mode == CodeEditorMode::Settings {
            (theme.string, true)
        } else {
            (theme.text, true)
        },
        TokenKind::Number => if code {
            (theme.number, true)
        } else {
            (theme.text, true)
        },
        TokenKind::Quoted => if code {
            (theme.string, true)
        } else {
            (theme.text, true)
        },
        TokenKind::KeywordWhile => if rhai {
            (theme.keywords, true)
        } else {
            (theme.text, true)
        },
        TokenKind::KeywordFor => if rhai {
            (theme.keywords, true)
        } else {
            (theme.text, true)
        },
        TokenKind::KeywordIf => if rhai {
            (theme.keywords, true)
        } else {
            (theme.text, true)
        },
        TokenKind::KeywordElse => if rhai {
            (theme.keywords, true)
        } else {
            (theme.text, true)
        },
        TokenKind::KeywordLet => if rhai {
            (theme.keywords, true)
        } else {
            (theme.text, true)
        },
        TokenKind::KeywordFun => if rhai {
            (theme.keywords, true)
        } else {
            (theme.text, true)
        },
        TokenKind::KeywordPrint => if rhai {
            (theme.keywords, true)
        } else {
            (theme.text, true)
        },
        TokenKind::Quotation => if rhai {
            (theme.string, true)
        } else {
            (theme.text, true)
        },
        TokenKind::LeftBrace => (theme.brackets, true),
        TokenKind::RightBrace => (theme.brackets, true),
        TokenKind::LeftParen => (theme.brackets, true),
        TokenKind::RightParen => (theme.brackets, true),
        TokenKind::Dollar => (theme.brackets, true),
        TokenKind::Other => (theme.text, true),
    }
}

/// Colorizes a token: a value-returning replacement for mutating a shared
/// color variable across match arms.
pub fn classify(theme: &Theme, kind: TokenKind, mode: CodeEditorMode) -> (r: ([u8; 4], bool))
    ensures
        r == classify_spec(*theme, kind, mode),
{
    let code = mode == CodeEditorMode::Rhai || mode == CodeEditorMode::Settings;
    let rhai = mode == CodeEditorMode::Rhai;
    match kind {
        TokenKind::LineFeed => (theme.text, false),
        TokenKind::Space => (theme.text, false),
        TokenKind::Eof => (theme.text, false),
        TokenKind::Identifier => if code {
            (theme.identifier, true)
        } else {
            (theme.text, true)
        },
        TokenKind::SingleLineComment => if code {
            (theme.comments, true)
        } else {
            (theme.text, true)
        },
        TokenKind::HexColor => if mode == CodeEditorMode::Settings {
            (theme.string, true)
        } else {
            (theme.text, true)
        },
        TokenKind::Number => if code {
            (theme.number, true)
        } else {
            (theme.text, true)
        },
        TokenKind::Quoted => if code {
            (theme.string, true)
        } else {
            (theme.text, true)
        },
        TokenKind::KeywordWhile => if rhai {
            (theme.keywords, true)
        } else {
            (theme.text, true)
        },
        TokenKind::KeywordFor => if rhai {
            (theme.keywords, true)
        } else {
            (theme.text, true)
        },
        TokenKind::KeywordIf => if rhai {
            (theme.keywords, true)
        } else {
            (theme.text, true)
        },
        TokenKind::KeywordElse => if rhai {
            (theme.keywords, true)
        } else {
            (theme.text, true)
        },
        TokenKind::KeywordLet => if rhai {
            (theme.keywords, true)
        } else {
            (theme.text, true)
        },
        TokenKind::KeywordFun => if rhai {
            (theme.keywords, true)
        } else {
            (theme.text, true)
        },
        TokenKind::KeywordPrint => if rhai {
            (theme.keywords, true)
        } else {
            (theme.text, true)
        },
        TokenKind::Quotation => if rhai {
            (theme.string, true)
        } else {
            (theme.text, true)
        },
        TokenKind::LeftBrace => (theme.brackets, true),
        TokenKind::RightBrace => (theme.brackets, true),
        TokenKind::LeftParen => (theme.brackets, true),
        TokenKind::RightParen => (theme.brackets, true),
        TokenKind::Dollar => (theme.brackets, true),
        TokenKind::Other => (theme.text, true),
    }
}

} // verus!
