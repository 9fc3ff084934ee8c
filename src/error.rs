//! Why reading a forecast fails.

use vstd::prelude::*;
use crate::parameter::ParameterName;

verus! {

/// The payload does not have the shape of a forecast.
#[derive(Clone, Copy, Debug, PartialEq, Eq, Structural)]
pub enum StructureFault {
    UnknownParameterName,
    MalformedTimestamp,
    MalformedNumber,
}

/// A reading lies outside what its parameter allows.
#[derive(Clone, Copy, Debug, PartialEq, Eq, Structural)]
pub enum DomainFault {
    ValueCount(ParameterName),
    OutOfRange(ParameterName),
}

/// Why a forecast could not be read; no partial report is kept.
#[derive(Clone, Copy, Debug, PartialEq, Eq, Structural)]
pub enum ParseError {
    StructureViolation(StructureFault),
    DomainViolation(DomainFault),
}

pub open spec fn message_text(e: ParseError) -> Seq<char> {
    match e {
        ParseError::StructureViolation(StructureFault::UnknownParameterName) => "unknown parameter name"@,
        ParseError::StructureViolation(StructureFault::MalformedTimestamp) => "timestamp is not RFC 3339"@,
        ParseError::StructureViolation(StructureFault::MalformedNumber) => "value is not a number that can be held"@,
        ParseError::DomainViolation(DomainFault::ValueCount(_)) => "parameter must have exactly one value"@,
        ParseError::DomainViolation(DomainFault::OutOfRange(_)) => "value outside the parameter's domain"@,
    }
}

impl ParseError {
    /// A short description of the violation.
    pub fn message(&self) -> (r: &'static str)
        ensures
            r@ == message_text(*self),
    {
        match self {
            ParseError::StructureViolation(StructureFault::UnknownParameterName) => "unknown parameter name",
            ParseError::StructureViolation(StructureFault::MalformedTimestamp) => "timestamp is not RFC 3339",
            ParseError::StructureViolation(StructureFault::MalformedNumber) => "value is not a number that can be held",
            ParseError::DomainViolation(DomainFault::ValueCount(_)) => "parameter must have exactly one value",
            ParseError::DomainViolation(DomainFault::OutOfRange(_)) => "value outside the parameter's domain",
        }
    }
}

} // verus!
