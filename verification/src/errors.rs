use vstd::prelude::*;
use vstd::string::*;
use crate::text::{decimal, decimal_text};
use crate::token::Token;

verus! {

/// An error met while a statement runs: what went wrong, and the line of
/// the token it went wrong at.
#[derive(Debug, PartialEq)]
pub struct RuntimeError {
    pub line: u64,
    pub message: String,
}

/// The mathematical value of a [`RuntimeError`].
pub ghost struct RuntimeErrorView {
    pub line: u64,
    pub message: Seq<char>,
}

impl RuntimeErrorView {
    /// `<message> [line: <line>]`
    pub open spec fn text(self) -> Seq<char> {
        self.message + " [line: "@ + decimal(self.line as nat) + "]"@
    }
}

impl View for RuntimeError {
    type V = RuntimeErrorView;

    open spec fn view(&self) -> RuntimeErrorView {
        RuntimeErrorView { line: self.line, message: self.message@ }
    }
}

impl Clone for RuntimeError {
    fn clone(&self) -> (r: Self)
        ensures
            r == *self,
    {
        RuntimeError { line: self.line, message: self.message.clone() }
    }
}

impl RuntimeError {
    /// An error with `message`, met on `line`.
    pub fn new(line: u64, message: String) -> (r: Self)
        ensures
            r.line == line,
            r.message == message,
    {
        RuntimeError { line, message }
    }

    /// An error at the line of `token`.
    pub fn from_token(token: &Token, message: String) -> (r: Self)
        ensures
            r.line == token.line,
            r.message == message,
    {
        Self::new(token.line, message)
    }

    /// The error as a line of text.
    pub fn to_string(&self) -> (r: String)
        ensures
            r@ == self@.text(),
    {
        let mut r = self.message.clone();
        r.append(" [line: ");
        r.append(decimal_text(self.line).as_str());
        r.append("]");
        r
    }
}

} // verus!
