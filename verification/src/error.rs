//! What can go wrong while the configuration is resolved.

use vstd::prelude::*;
use vstd::string::StringExecFns;

verus! {

/// The shape that a configuration key must have.
#[derive(Clone, Copy, Debug, PartialEq, Eq, Structural)]
pub enum Shape {
    String,
    ArrayOfStrings,
}

impl Shape {
    /// The words that name the shape in a message.
    pub open spec fn phrase(self) -> Seq<char> {
        match self {
            Shape::String => "a string"@,
            Shape::ArrayOfStrings => "an array of strings"@,
        }
    }
}

/// A failure of the resolution. Absence is never one: a key, a file or a
/// profile that is missing is an ordinary outcome.
#[derive(Debug, PartialEq, Eq)]
pub enum Error {
    /// A key of the configuration file is present with the wrong shape.
    /// `key` is the dotted path of the key.
    ConfigShape { key: String, expected: Shape },
    /// The current directory is not known.
    DirectoryAccess,
    /// A profile cannot be written as TOML text.
    Unwritable,
}

impl Error {
    /// The text of the message, as mathematics.
    pub open spec fn text(self) -> Seq<char> {
        match self {
            Error::ConfigShape { key, expected } => ".cargo/config: "@ + key@ + " must be "@
                + expected.phrase(),
            Error::DirectoryAccess => "couldn't get the current directory"@,
            Error::Unwritable => "the profile cannot be written as TOML"@,
        }
    }

    /// The message for the user.
    pub fn message(&self) -> (text: String)
        ensures
            text@ == self.text(),
    {
        match self {
            Error::ConfigShape { key, expected } => {
                let mut text = String::from_str(".cargo/config: ");
                text.append(key.as_str());
                text.append(" must be ");
                match expected {
                    Shape::String => text.append("a string"),
                    Shape::ArrayOfStrings => text.append("an array of strings"),
                }
                text
            },
            Error::DirectoryAccess => String::from_str("couldn't get the current directory"),
            Error::Unwritable => String::from_str("the profile cannot be written as TOML"),
        }
    }
}

} // verus!
