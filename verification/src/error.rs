use vstd::prelude::*;
use vstd::string::*;
use vstd::std_specs::cmp::PartialEqSpecImpl;

use crate::parser::types::Address;
use crate::text::{decimal, decimal_string};

verus! {

/// Why a run of the machine stopped before the end of its program.
#[derive(Debug, Clone, Copy)]
pub enum Error {
    /// The data pointer would have left the tape; holds the address of the instruction.
    OutsideBounds(Address),
    /// A loop was closed that nothing had opened; holds the address of the instruction.
    ExpectedLoopStart(Address),
    /// The input channel had no byte to give.
    Io,
    /// The watchdog asked for the run to end.
    WatchdogError,
}

impl PartialEq for Error {
    fn eq(&self, other: &Self) -> (equal: bool) {
        match (self, other) {
            (Error::OutsideBounds(l), Error::OutsideBounds(r)) => *l == *r,
            (Error::ExpectedLoopStart(l), Error::ExpectedLoopStart(r)) => *l == *r,
            (Error::Io, Error::Io) => true,
            _ => false,
        }
    }
}

impl PartialEqSpecImpl for Error {
    open spec fn obeys_eq_spec() -> bool {
        true
    }

    /// Two failures of the program compare equal when they are of one kind and name
    /// one instruction, and two failures of a channel always do. A stop by the
    /// watchdog compares equal to nothing, not even to another such stop.
    open spec fn eq_spec(&self, other: &Self) -> bool {
        match (*self, *other) {
            (Error::OutsideBounds(l), Error::OutsideBounds(r)) => l == r,
            (Error::ExpectedLoopStart(l), Error::ExpectedLoopStart(r)) => l == r,
            (Error::Io, Error::Io) => true,
            _ => false,
        }
    }
}

impl Error {
    /// The sentence that describes this error to a reader.
    pub open spec fn message_text(self) -> Seq<char> {
        match self {
            Error::OutsideBounds(pos) => "pointer went outside of bounds (instruction "@
                + decimal(pos as nat) + ")"@,
            Error::ExpectedLoopStart(pos) => "missing loop start (instruction "@ + decimal(
                pos as nat,
            ) + ")"@,
            Error::Io => "io error: unexpected end of file"@,
            Error::WatchdogError => "watchdog stopped execution"@,
        }
    }

    /// Describes this error in one sentence.
    pub fn message(&self) -> (text: String)
        ensures
            text@ == self.message_text(),
    {
        match self {
            Error::OutsideBounds(pos) => {
                let mut text = String::from_str("pointer went outside of bounds (instruction ");
                text.append(decimal_string(*pos).as_str());
                text.append(")");
                text
            },
            Error::ExpectedLoopStart(pos) => {
                let mut text = String::from_str("missing loop start (instruction ");
                text.append(decimal_string(*pos).as_str());
                text.append(")");
                text
            },
            Error::Io => String::from_str("io error: unexpected end of file"),
            Error::WatchdogError => String::from_str("watchdog stopped execution"),
        }
    }
}

} // verus!
