//! The failures that parsing and decoding can report.

use vstd::prelude::*;
use vstd::string::*;
use crate::text::{decimal, push_decimal};

verus! {

/// Why a text or a number could not be turned into a chess value.
#[derive(Debug)]
pub enum ChessError {
    /// A position in Forsyth-Edwards Notation was malformed.
    InvalidFen { msg: String },
    /// A square or a move in algebraic notation was malformed.
    InvalidAlgNotation { msg: String },
    /// A number that names no square.
    InvalidSquare { square: u16 },
}

/// A [`ChessError`] with its message as a sequence of characters.
pub enum ChessErrorView {
    InvalidFen { msg: Seq<char> },
    InvalidAlgNotation { msg: Seq<char> },
    InvalidSquare { square: u16 },
}

impl ChessErrorView {
    /// The diagnostic line of the error: a fixed prefix for the kind,
    /// then the message or the offending number.
    pub open spec fn text(self) -> Seq<char> {
        match self {
            ChessErrorView::InvalidFen { msg } => "Invalid FEN: "@ + msg,
            ChessErrorView::InvalidAlgNotation { msg } => "Invalid algebraic notation: "@ + msg,
            ChessErrorView::InvalidSquare { square } => "Invalid square: "@ + decimal(
                square as nat,
            ),
        }
    }
}

impl View for ChessError {
    type V = ChessErrorView;

    open spec fn view(&self) -> ChessErrorView {
        match *self {
            ChessError::InvalidFen { msg } => ChessErrorView::InvalidFen { msg: msg@ },
            ChessError::InvalidAlgNotation { msg } => ChessErrorView::InvalidAlgNotation {
                msg: msg@,
            },
            ChessError::InvalidSquare { square } => ChessErrorView::InvalidSquare { square },
        }
    }
}

impl ChessError {
    /// Renders the error as its diagnostic line.
    pub fn to_string(&self) -> (s: String)
        ensures
            s@ == self@.text(),
    {
        match self {
            ChessError::InvalidFen { msg } => {
                let mut s = String::from_str("Invalid FEN: ");
                s.append(msg.as_str());
                s
            },
            ChessError::InvalidAlgNotation { msg } => {
                let mut s = String::from_str("Invalid algebraic notation: ");
                s.append(msg.as_str());
                s
            },
            ChessError::InvalidSquare { square } => {
                let mut s = String::from_str("Invalid square: ");
                push_decimal(&mut s, *square as u64);
                s
            },
        }
    }
}

/// The view of a result whose error is a [`ChessError`].
pub open spec fn result_view<T>(r: Result<T, ChessError>) -> Result<T, ChessErrorView> {
    match r {
        Ok(v) => Ok(v),
        Err(e) => Err(e@),
    }
}

} // verus!
