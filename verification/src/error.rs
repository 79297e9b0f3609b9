//! The errors of the core rules.
use crate::text::push_str;
use vstd::prelude::*;

verus! {

#[derive(Debug, PartialEq, Eq, Clone)]
pub enum CoreError {
    Overlap,
    InvalidTime(String),
    InvalidDate(String),
    InvalidRange,
}

pub open spec fn core_error_text(e: CoreError) -> Seq<char> {
    match e {
        CoreError::Overlap => "entry overlaps an existing entry"@,
        CoreError::InvalidTime(s) => "invalid time: "@ + s@,
        CoreError::InvalidDate(s) => "invalid date: "@ + s@,
        CoreError::InvalidRange => "end must be after start"@,
    }
}

impl CoreError {
    /// The message the error is shown with.
    pub fn message(&self) -> (r: String)
        ensures
            r@ == core_error_text(*self),
    {
        match self {
            CoreError::Overlap => String::from_str("entry overlaps an existing entry"),
            CoreError::InvalidTime(s) => {
                let mut r = String::from_str("invalid time: ");
                push_str(&mut r, s.as_str());
                r
            },
            CoreError::InvalidDate(s) => {
                let mut r = String::from_str("invalid date: ");
                push_str(&mut r, s.as_str());
                r
            },
            CoreError::InvalidRange => String::from_str("end must be after start"),
        }
    }
}

} // verus!
