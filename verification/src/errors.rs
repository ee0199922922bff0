//! The failures that the library reports.

use vstd::prelude::*;

verus! {

/// What is wrong with a single metrics record on the wire.
#[derive(Debug, Clone, Copy, PartialEq, Eq, Structural)]
pub enum MetricFault {
    /// The record has no name, or an empty one.
    NoName,
    /// The record has a name and no value tag at all.
    NoValue,
    /// The record carries a histogram, which is not decoded yet.
    Histogram,
}

/// A failure of one of the library's fallible operations.
#[derive(Debug, Clone, Copy, PartialEq, Eq, Structural)]
pub enum Error {
    /// The metrics record at `index` of a batch cannot be decoded.
    Metric { index: usize, fault: MetricFault },
    /// A wire message in which no known field is present.
    UnknownMessage,
    /// A wire message in which more than one variant field is present.
    AmbiguousMessage,
    /// A wire envelope that lacks its destination.
    NoDestination,
    /// A wire envelope that lacks its source.
    NoSource,
    /// A wire envelope that lacks its message.
    NoMessage,
    /// A wire correlation token that names no process.
    NoCorrelationPid,
    /// The user payload could not be turned into bytes, or bytes into it.
    Payload,
    /// A node was asked to open a connection to itself.
    JoinSelf,
    /// No further correlation id can be issued by this source.
    CorrelationExhausted,
}

/// A result as the contracts see it: the view of the value where there is
/// one, the error as it is.
pub open spec fn view_ok<T: DeepView, E>(r: Result<T, E>) -> Result<T::V, E> {
    match r {
        Ok(value) => Ok(value.deep_view()),
        Err(e) => Err(e),
    }
}

impl MetricFault {
    /// The text of this fault.
    pub open spec fn text(self) -> Seq<char> {
        match self {
            MetricFault::NoName => "All metrics must have names"@,
            MetricFault::NoValue => "No metric value set"@,
            MetricFault::Histogram => "Histogram metrics are not supported yet"@,
        }
    }

    /// Describes the fault in words.
    pub fn description(&self) -> (s: String)
        ensures
            s@ == self.text(),
    {
        match self {
            MetricFault::NoName => "All metrics must have names".to_owned(),
            MetricFault::NoValue => "No metric value set".to_owned(),
            MetricFault::Histogram => "Histogram metrics are not supported yet".to_owned(),
        }
    }
}

impl Error {
    /// The text of this error.
    pub open spec fn text(self) -> Seq<char> {
        match self {
            Error::Metric { index, fault } => fault.text(),
            Error::UnknownMessage => "Unknown Message received"@,
            Error::AmbiguousMessage => "More than one message field set"@,
            Error::NoDestination => "Envelope without a destination"@,
            Error::NoSource => "Envelope without a source"@,
            Error::NoMessage => "Envelope without a message"@,
            Error::NoCorrelationPid => "Correlation id without a pid"@,
            Error::Payload => "Malformed user payload"@,
            Error::JoinSelf => "A node cannot join itself"@,
            Error::CorrelationExhausted => "No correlation id left"@,
        }
    }

    /// Whether this error stands for a malformed or unrecognised wire
    /// record, as opposed to a refused request.
    pub open spec fn is_decode_error(self) -> bool {
        !(self is JoinSelf || self is CorrelationExhausted)
    }

    /// Describes the error in words.
    pub fn description(&self) -> (s: String)
        ensures
            s@ == self.text(),
    {
        match self {
            Error::Metric { index: _, fault } => fault.description(),
            Error::UnknownMessage => "Unknown Message received".to_owned(),
            Error::AmbiguousMessage => "More than one message field set".to_owned(),
            Error::NoDestination => "Envelope without a destination".to_owned(),
            Error::NoSource => "Envelope without a source".to_owned(),
            Error::NoMessage => "Envelope without a message".to_owned(),
            Error::NoCorrelationPid => "Correlation id without a pid".to_owned(),
            Error::Payload => "Malformed user payload".to_owned(),
            Error::JoinSelf => "A node cannot join itself".to_owned(),
            Error::CorrelationExhausted => "No correlation id left".to_owned(),
        }
    }

    /// Tells a wire-level failure from a refused request.
    pub fn is_decode(&self) -> (b: bool)
        ensures
            b == self.is_decode_error(),
    {
        match self {
            Error::JoinSelf => false,
            Error::CorrelationExhausted => false,
            _ => true,
        }
    }
}

} // verus!
