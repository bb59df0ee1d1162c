//! Errors of reading a configuration.

use vstd::prelude::*;

verus! {

/// What a value was expected to be.
#[derive(Debug, Clone, Copy)]
pub enum Expected {
    Uri,
}

#[derive(Debug)]
pub enum Error {
    /// An error of the data format.
    General(String),
    /// The data does not fit.
    Expected(Expected),
}

/// The name of what was expected.
pub open spec fn expected_text(expected: Expected) -> Seq<char> {
    match expected {
        Expected::Uri => "Uri"@,
    }
}

/// The message of an error.
pub open spec fn error_text(error: Error) -> Seq<char> {
    match error {
        Error::General(message) => "General serde error: "@ + message@,
        Error::Expected(expected) => "Expected "@ + expected_text(expected)
            + " but data was not compatible"@,
    }
}

impl Expected {
    pub fn name(self) -> (text: String)
        ensures
            text@ == expected_text(self),
            self is Uri ==> text@ == "Uri"@,
    {
        match self {
            Expected::Uri => String::from_str("Uri"),
        }
    }
}

impl Error {
    /// An error of the data format with the given message.
    pub fn custom(msg: String) -> (error: Error)
        ensures
            error == Error::General(msg),
    {
        Error::General(msg)
    }

    /// The text to show for the error.
    pub fn message(&self) -> (text: String)
        ensures
            text@ == error_text(*self),
            match *self {
                Error::General(message) => text@ == "General serde error: "@ + message@,
                Error::Expected(Expected::Uri) => text@
                    == "Expected Uri but data was not compatible"@,
            },
    {
        proof {
            reveal_strlit("Uri");
            reveal_strlit("Expected ");
            reveal_strlit(" but data was not compatible");
            reveal_strlit("Expected Uri but data was not compatible");
        }
        match self {
            Error::General(message) => {
                let mut text = String::from_str("General serde error: ");
                text.append(message.as_str());
                text
            },
            Error::Expected(expected) => {
                let mut text = String::from_str("Expected ");
                text.append(expected.name().as_str());
                text.append(" but data was not compatible");
                text
            },
        }
    }
}

} // verus!
