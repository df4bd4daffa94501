//! The errors of the encode-and-render pipeline.

use vstd::prelude::*;
use vstd::string::StringExecFns;

verus! {

/// Why a request was refused.
#[derive(Clone, Copy, Debug, PartialEq, Eq, Structural)]
pub enum BarcodeError {
    /// The token to encode is empty.
    EmptyInput,
    /// The token is longer than the symbology accepts.
    TooLong,
    /// The token holds a character outside the symbology's alphabet.
    UnsupportedCharacter,
    /// A renderer met data from which it cannot produce valid output.
    Format,
}

impl BarcodeError {
    /// Whether the error is about the caller's input rather than about
    /// rendering.
    pub open spec fn is_input_error(self) -> bool {
        self != BarcodeError::Format
    }

    /// Tells an error about the caller's input from one about rendering.
    pub fn is_input(&self) -> (r: bool)
        ensures
            r == self.is_input_error(),
    {
        match self {
            BarcodeError::Format => false,
            _ => true,
        }
    }

    /// The text of the message that describes the error.
    pub open spec fn message_text(self) -> Seq<char> {
        match self {
            BarcodeError::EmptyInput => "barcode data is empty"@,
            BarcodeError::TooLong => "barcode data is too long"@,
            BarcodeError::UnsupportedCharacter => "barcode data holds an unsupported character"@,
            BarcodeError::Format => "could not generate barcode data"@,
        }
    }

    /// A message that describes the error.
    pub fn message(&self) -> (r: String)
        ensures
            r@ == self.message_text(),
    {
        match self {
            BarcodeError::EmptyInput => String::from_str("barcode data is empty"),
            BarcodeError::TooLong => String::from_str("barcode data is too long"),
            BarcodeError::UnsupportedCharacter => String::from_str(
                "barcode data holds an unsupported character",
            ),
            BarcodeError::Format => String::from_str("could not generate barcode data"),
        }
    }
}

} // verus!
