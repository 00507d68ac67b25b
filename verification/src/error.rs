//! Errors: what the scanner and the parser report, as values.

use vstd::prelude::*;
use crate::text::{decimal_text, push_decimal};

verus! {

/// A fault in the source: the line it was found on and what is wrong there.
#[derive(Debug)]
pub struct RloxSyntaxError {
    pub line_number: usize,
    pub description: String,
}

/// A fault as a value.
pub struct SyntaxErrorView {
    pub line: nat,
    pub description: Seq<char>,
}

impl View for RloxSyntaxError {
    type V = SyntaxErrorView;

    open spec fn view(&self) -> SyntaxErrorView {
        SyntaxErrorView { line: self.line_number as nat, description: self.description@ }
    }
}

impl PartialEq for RloxSyntaxError {
    fn eq(&self, other: &Self) -> (r: bool) {
        self.line_number == other.line_number && self.description == other.description
    }
}

impl vstd::std_specs::cmp::PartialEqSpecImpl for RloxSyntaxError {
    open spec fn obeys_eq_spec() -> bool {
        true
    }

    /// Two faults are equal where they are on one line and described alike.
    open spec fn eq_spec(&self, other: &Self) -> bool {
        self@ == other@
    }
}

impl Clone for RloxSyntaxError {
    fn clone(&self) -> (r: Self)
        ensures
            r@ == self@,
    {
        RloxSyntaxError { line_number: self.line_number, description: self.description.clone() }
    }
}

/// How a fault is displayed.
pub open spec fn syntax_error_text(e: SyntaxErrorView) -> Seq<char> {
    "rlox syntax error: \nline_number: "@ + decimal_text(e.line) + "\n, description: "@
        + e.description + "\n"@
}

impl RloxSyntaxError {
    /// The fault as it is displayed.
    pub fn to_string(&self) -> (r: String)
        ensures
            r@ == syntax_error_text(self@),
    {
        let mut s = String::from_str("rlox syntax error: \nline_number: ");
        push_decimal(&mut s, self.line_number);
        s.append("\n, description: ");
        s.append(self.description.as_str());
        s.append("\n");
        s
    }
}

/// What scanning or parsing fails with.
#[derive(Debug)]
pub enum RloxError {
    SyntaxError(RloxSyntaxError),
}

/// An error as a value.
pub enum ErrorView {
    SyntaxError(SyntaxErrorView),
}

impl View for RloxError {
    type V = ErrorView;

    open spec fn view(&self) -> ErrorView {
        match self {
            RloxError::SyntaxError(e) => ErrorView::SyntaxError(e@),
        }
    }
}

impl PartialEq for RloxError {
    fn eq(&self, other: &Self) -> (r: bool) {
        match (self, other) {
            (RloxError::SyntaxError(a), RloxError::SyntaxError(b)) => *a == *b,
        }
    }
}

impl vstd::std_specs::cmp::PartialEqSpecImpl for RloxError {
    open spec fn obeys_eq_spec() -> bool {
        true
    }

    open spec fn eq_spec(&self, other: &Self) -> bool {
        self@ == other@
    }
}

/// How an error is displayed.
pub open spec fn error_text(e: ErrorView) -> Seq<char> {
    match e {
        ErrorView::SyntaxError(e) => "Syntax error: "@ + syntax_error_text(e),
    }
}

impl RloxError {
    /// The error as it is displayed.
    pub fn to_string(&self) -> (r: String)
        ensures
            r@ == error_text(self@),
    {
        match self {
            RloxError::SyntaxError(e) => {
                let mut s = String::from_str("Syntax error: ");
                s.append(e.to_string().as_str());
                s
            },
        }
    }
}

impl From<RloxSyntaxError> for RloxError {
    fn from(e: RloxSyntaxError) -> (r: Self) {
        RloxError::SyntaxError(e)
    }
}

impl vstd::std_specs::convert::FromSpecImpl<RloxSyntaxError> for RloxError {
    open spec fn obeys_from_spec() -> bool {
        true
    }

    open spec fn from_spec(e: RloxSyntaxError) -> Self {
        RloxError::SyntaxError(e)
    }
}

} // verus!
