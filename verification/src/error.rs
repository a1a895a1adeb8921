//! The reasons for which a delivery is rejected.

use vstd::prelude::*;

verus! {

/// Why a delivery was rejected.
#[derive(Clone, Debug, PartialEq, Eq)]
pub enum InputError {
    /// The value handed to the splitter is not a sequence.
    NotAnArray,
    /// The position of a collected element lies outside its wave.
    IndexOutOfBounds,
    /// A text was expected and the value is none.
    NotAString,
    /// A path leads through a field that is not an object.
    NotAnObject,
    /// A text could not be read, or a value could not be written, in the
    /// requested format; the field is the converter's own message.
    Malformed(String),
}

impl InputError {
    /// The text that describes the error.
    pub open spec fn message_text(self) -> Seq<char> {
        match self {
            InputError::NotAnArray => "Input value is not an array"@,
            InputError::IndexOutOfBounds => "Element index is out of bounds"@,
            InputError::NotAString => "not a string"@,
            InputError::NotAnObject => "failed as_object_mut"@,
            InputError::Malformed(text) => text@,
        }
    }

    /// The text that describes the error.
    pub fn message(&self) -> (r: String)
        ensures
            r@ == self.message_text(),
    {
        match self {
            InputError::NotAnArray => "Input value is not an array".to_string(),
            InputError::IndexOutOfBounds => "Element index is out of bounds".to_string(),
            InputError::NotAString => "not a string".to_string(),
            InputError::NotAnObject => "failed as_object_mut".to_string(),
            InputError::Malformed(text) => text.clone(),
        }
    }
}

} // verus!
