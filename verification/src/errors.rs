use vstd::prelude::*;

verus! {

/// A direction token was neither `Up` nor `Down`.
#[derive(Debug, PartialEq, Eq, Structural, Clone, Copy)]
pub struct InvalidDirection;

impl InvalidDirection {
    /// Short description of the error, in place of a `Display` implementation.
    pub fn message(&self) -> (r: &'static str)
        ensures
            r@ == "InvalidDirection"@,
    {
        "InvalidDirection"
    }
}

/// A textual instant could not be parsed into a time type.
#[derive(Debug, PartialEq, Eq, PartialOrd, Ord, Structural, Clone, Copy)]
pub struct TimeParserError;

impl TimeParserError {
    /// Short description of the error, in place of a `Display` implementation.
    pub fn message(&self) -> (r: &'static str)
        ensures
            r@ == "Tried to parse invalid time string"@,
    {
        "Tried to parse invalid time string"
    }
}

/// Displacing an instant by a span left the representable range.
#[derive(Debug, PartialEq, Eq, Structural, Clone, Copy)]
pub struct TimeOverflow;

impl TimeOverflow {
    /// Short description of the error, in place of a `Display` implementation.
    pub fn message(&self) -> (r: &'static str)
        ensures
            r@ == "Time could not be added due to an overflow"@,
    {
        "Time could not be added due to an overflow"
    }
}

/// A persisted counter record could not be read back: fewer than three
/// newline-separated fields were present, or one of the three fields failed
/// its parse.
#[derive(Debug, PartialEq, Eq, Structural, Clone, Copy)]
pub enum MalformedData {
    /// Fewer than three newline-separated fields.
    MissingFields,
    /// The first field is not a valid start instant.
    InvalidStart,
    /// The second field is not a valid end instant.
    InvalidEnd,
    /// The third field is not a valid direction token.
    InvalidDirection,
}

impl MalformedData {
    /// Short description of the error, in place of a `Display` implementation.
    pub fn message(&self) -> (r: &'static str)
        ensures
            *self is MissingFields ==> r@ == "File does not contain valid counter data"@,
            *self is InvalidStart ==> r@ == "File does not contain valid start data"@,
            *self is InvalidEnd ==> r@ == "File does not contain valid end data"@,
            *self is InvalidDirection ==> r@ == "File does not contain valid direction data"@,
    {
        match self {
            MalformedData::MissingFields => "File does not contain valid counter data",
            MalformedData::InvalidStart => "File does not contain valid start data",
            MalformedData::InvalidEnd => "File does not contain valid end data",
            MalformedData::InvalidDirection => "File does not contain valid direction data",
        }
    }
}

} // verus!
