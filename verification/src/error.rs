//! Errors as Oracle reports them.

use vstd::prelude::*;
use vstd::string::*;

use crate::text;

verus! {

/// An error number with its message, rendered as `ORA-nnnnn: message`.
#[derive(Debug, Clone, PartialEq, Eq)]
pub struct OraError {
    pub code: u32,
    pub message: String,
}

/// What an error says.
pub struct Failure {
    pub code: int,
    pub message: Seq<char>,
}

impl View for OraError {
    type V = Failure;

    open spec fn view(&self) -> Failure {
        Failure { code: self.code as int, message: self.message@ }
    }
}

/// The failure with a number and a message.
pub open spec fn failure(code: int, message: Seq<char>) -> Failure {
    Failure { code, message }
}

pub open spec fn inconsistent(expected: Seq<char>, got: Seq<char>) -> Failure {
    failure(932, "inconsistent datatypes: expected "@ + expected + " got "@ + got)
}

pub open spec fn invalid_identifier(name: Seq<char>) -> Failure {
    failure(904, name + ": invalid identifier"@)
}

pub open spec fn table_not_found() -> Failure {
    failure(942, "table or view does not exist"@)
}

/// Whether a failing function gave the failure that was due.
pub open spec fn failed<T>(due: Result<T, Failure>, e: OraError) -> bool {
    due == Err::<T, Failure>(e@)
}

impl OraError {
    pub fn new(code: u32, message: &str) -> (e: OraError)
        ensures
            e@ == failure(code as int, message@),
    {
        OraError { code, message: message.to_owned() }
    }

    /// A value of one type where another is due.
    pub fn inconsistent(expected: &str, got: &str) -> (e: OraError)
        ensures
            e@ == inconsistent(expected@, got@),
    {
        let mut m = "inconsistent datatypes: expected ".to_owned();
        m.append(expected);
        m.append(" got ");
        m.append(got);
        OraError { code: 932, message: m }
    }

    /// A name that stands for nothing.
    pub fn invalid_identifier(name: &str) -> (e: OraError)
        ensures
            e@ == invalid_identifier(name@),
    {
        OraError { code: 904, message: text::join(name, ": invalid identifier") }
    }

    pub fn table_not_found() -> (e: OraError)
        ensures
            e@ == table_not_found(),
    {
        OraError::new(942, "table or view does not exist")
    }

    /// `ORA-`, the number with at least five digits, a colon and the message.
    pub fn to_string(&self) -> (s: String)
        ensures
            s@ == "ORA-"@ + text::zero_filled(text::decimal(self.code as nat), 5) + ": "@ + self.message@,
    {
        let mut s = "ORA-".to_owned();
        s.append(&text::decimal_filled(self.code as u64, 5));
        s.append(": ");
        s.append(&self.message);
        s
    }
}

} // verus!
