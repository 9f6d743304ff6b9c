//! The error a literal decoder reports.
use vstd::prelude::*;

verus! {

/// Why a literal could not be decoded; the message names the literal.
#[derive(Debug, Clone, PartialEq, Eq)]
pub enum DecodeError {
    Parse(String),
}

impl DecodeError {
    /// The text of the error.
    pub open spec fn message(&self) -> Seq<char> {
        match self {
            DecodeError::Parse(m) => m@,
        }
    }
}

/// A decoding result with the error taken by its message.
pub open spec fn decoded<T>(r: Result<T, DecodeError>) -> Result<T, Seq<char>> {
    match r {
        Ok(v) => Ok(v),
        Err(e) => Err(e.message()),
    }
}

/// A parse error whose message is `prefix` followed by the offending literal.
pub fn parse_error(prefix: &str, literal: &str) -> (e: DecodeError)
    ensures
        e.message() == prefix@ + literal@,
{
    let mut m = String::from_str(prefix);
    m.append(literal);
    DecodeError::Parse(m)
}

} // verus!
