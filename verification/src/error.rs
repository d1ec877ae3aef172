use vstd::prelude::*;

use crate::range::{Position, Range};
use crate::text::{decimal, push_decimal, push_str};

verus! {

/// The errors of lexing, macro expansion, parsing and compilation.
#[derive(Debug, PartialEq, Clone)]
pub enum AnreError {
    Message(String),
    SyntaxIncorrect(String),
    UnexpectedEndOfDocument(String),
    MessageWithPosition(String, Position),
    MessageWithRange(String, Range),
}

/// An error with its text taken as a sequence of characters.
pub enum ErrorView {
    Message(Seq<char>),
    SyntaxIncorrect(Seq<char>),
    UnexpectedEndOfDocument(Seq<char>),
    MessageWithPosition(Seq<char>, Position),
    MessageWithRange(Seq<char>, Range),
}

impl View for AnreError {
    type V = ErrorView;

    open spec fn view(&self) -> ErrorView {
        match self {
            AnreError::Message(m) => ErrorView::Message(m@),
            AnreError::SyntaxIncorrect(m) => ErrorView::SyntaxIncorrect(m@),
            AnreError::UnexpectedEndOfDocument(m) => ErrorView::UnexpectedEndOfDocument(m@),
            AnreError::MessageWithPosition(m, p) => ErrorView::MessageWithPosition(m@, *p),
            AnreError::MessageWithRange(m, r) => ErrorView::MessageWithRange(m@, *r),
        }
    }
}


/// The message of an error for a reader: the detail, after a line that
/// tells where (lines and columns counted from 1) or that the text ended.
pub open spec fn error_text(e: ErrorView) -> Seq<char> {
    match e {
        ErrorView::Message(m) => m,
        ErrorView::SyntaxIncorrect(m) => m,
        ErrorView::UnexpectedEndOfDocument(detail) => "Unexpected end of document.\n"@ + detail,
        ErrorView::MessageWithPosition(detail, p) => "Error at line: "@ + decimal(
            (p.line + 1) as nat,
        ) + " column: "@ + decimal((p.column + 1) as nat) + "\n"@ + detail,
        ErrorView::MessageWithRange(detail, r) => "Error from line: "@ + decimal(
            (r.start.line + 1) as nat,
        ) + " column: "@ + decimal((r.start.column + 1) as nat) + ", to line: "@ + decimal(
            (r.end_inclusive.line + 1) as nat,
        ) + " column: "@ + decimal((r.end_inclusive.column + 1) as nat) + "\n"@ + detail,
    }
}

/// The lines and columns of the error's place can be counted from 1.
pub open spec fn place_countable(e: ErrorView) -> bool {
    match e {
        ErrorView::MessageWithPosition(_, p) => p.line < usize::MAX && p.column < usize::MAX,
        ErrorView::MessageWithRange(_, r) => {
            &&& r.start.line < usize::MAX
            &&& r.start.column < usize::MAX
            &&& r.end_inclusive.line < usize::MAX
            &&& r.end_inclusive.column < usize::MAX
        },
        _ => true,
    }
}

impl AnreError {
    /// The message of the error for a reader.
    pub fn to_string(&self) -> (text: String)
        requires
            place_countable(self@),
        ensures
            text@ == error_text(self@),
    {
        let mut out = String::new();
        match self {
            AnreError::Message(m) => push_str(&mut out, m.as_str()),
            AnreError::SyntaxIncorrect(m) => push_str(&mut out, m.as_str()),
            AnreError::UnexpectedEndOfDocument(detail) => {
                push_str(&mut out, "Unexpected end of document.\n");
                push_str(&mut out, detail.as_str());
            },
            AnreError::MessageWithPosition(detail, position) => {
                push_str(&mut out, "Error at line: ");
                push_decimal(&mut out, position.line + 1);
                push_str(&mut out, " column: ");
                push_decimal(&mut out, position.column + 1);
                push_str(&mut out, "\n");
                push_str(&mut out, detail.as_str());
            },
            AnreError::MessageWithRange(detail, range) => {
                push_str(&mut out, "Error from line: ");
                push_decimal(&mut out, range.start.line + 1);
                push_str(&mut out, " column: ");
                push_decimal(&mut out, range.start.column + 1);
                push_str(&mut out, ", to line: ");
                push_decimal(&mut out, range.end_inclusive.line + 1);
                push_str(&mut out, " column: ");
                push_decimal(&mut out, range.end_inclusive.column + 1);
                push_str(&mut out, "\n");
                push_str(&mut out, detail.as_str());
            },
        }
        assert(out@ =~= error_text(self@));
        out
    }
}

} // verus!
