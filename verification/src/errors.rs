use vstd::prelude::*;

use crate::numfmt::dec_i;

verus! {

/// The kinds of failure the interpreter reports, each carrying the
/// source location (row and column) at which it was detected.
#[derive(Clone, Copy, PartialEq, Eq, Structural, Debug)]
pub enum ErrorKind {
    /// Tokenizer failure: unterminated string literal or bad escape.
    LexError,
    /// Unexpected token kind, or a missing `->`, `=` or `)`.
    SyntaxError,
    /// A name absent from the variable store (or present with a
    /// non-numeric type where a number was required).
    UndefinedVariableError,
    /// A right-hand side whose kind disagrees with the declared type.
    TypeMismatchError,
    /// Division by zero, a malformed or oversized numeric value, or an
    /// intermediate value the evaluator cannot represent.
    ArithmeticError,
    /// A `(` or `)` left unmatched at the end of an expression.
    UnmatchedParenError,
}

/// An interpretation failure: its kind, the 1-based row and column of the
/// offending source position, and a human-readable message.
#[derive(Clone, Debug)]
pub struct InterpError {
    pub kind: ErrorKind,
    pub row: usize,
    pub col: usize,
    pub text: Vec<u8>,
}

impl InterpError {
    /// The human-readable form of the error: `row:col text`.
    pub fn message(&self) -> (r: Vec<u8>)
        ensures
            r@ == dec_i(self.row as int) + seq![58u8] + dec_i(self.col as int) + seq![32u8]
                + self.text@,
    {
        let mut r: Vec<u8> = crate::numfmt::u64_to_dec(self.row as u64);
        r.push(58);
        let col_digits: Vec<u8> = crate::numfmt::u64_to_dec(self.col as u64);
        crate::parser::append_bytes(&mut r, col_digits.as_slice());
        r.push(32);
        crate::parser::append_bytes(&mut r, self.text.as_slice());
        proof {
            assert(r@ =~= dec_i(self.row as int) + seq![58u8] + dec_i(self.col as int)
                + seq![32u8] + self.text@);
        }
        r
    }
}

/// Builds an error value from its kind, location and message text.
pub fn make_error(kind: ErrorKind, row: usize, col: usize, text: Vec<u8>) -> (r: InterpError)
    ensures
        r.kind == kind,
        r.row == row,
        r.col == col,
        r.text@ == text@,
{
    InterpError { kind, row, col, text }
}

} // verus!
