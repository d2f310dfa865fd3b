//! The errors of the library.

use vstd::prelude::*;

verus! {

/// Why a machine could not be set up.
#[derive(Clone, Copy, Debug, PartialEq, Eq, Structural)]
pub enum ConfigurationError {
    /// A rotor was asked for under a name that no preset has.
    UnknownRotor,
    /// A rotor's position or ring setting is not a symbol.
    InvalidRotorSetting,
    /// The rotor assembly would be empty.
    NoRotors,
    /// A reflector was asked for under a name that no preset has.
    UnknownReflector,
    /// The plugboard has more than 13 pairs, a pair names a character
    /// outside the alphabet, or a character stands in two pairs.
    InvalidPlugboard,
}

impl ConfigurationError {
    /// The text of each error.
    pub open spec fn spec_message(self) -> Seq<char> {
        match self {
            ConfigurationError::UnknownRotor => "Unsupported rotor type!"@,
            ConfigurationError::InvalidRotorSetting => "Rotor position and ring must be letters A-Z"@,
            ConfigurationError::NoRotors => "At least one rotor is required"@,
            ConfigurationError::UnknownReflector => "Unknown reflector type"@,
            ConfigurationError::InvalidPlugboard => "Invalid plugboard mapping provided"@,
        }
    }

    /// A line of text that describes the error.
    pub fn message(&self) -> (s: &'static str)
        ensures
            s@ == self.spec_message(),
    {
        match self {
            ConfigurationError::UnknownRotor => "Unsupported rotor type!",
            ConfigurationError::InvalidRotorSetting => "Rotor position and ring must be letters A-Z",
            ConfigurationError::NoRotors => "At least one rotor is required",
            ConfigurationError::UnknownReflector => "Unknown reflector type",
            ConfigurationError::InvalidPlugboard => "Invalid plugboard mapping provided",
        }
    }
}

/// A character of the message that the machine cannot encrypt.
#[derive(Clone, Copy, Debug, PartialEq, Eq, Structural)]
pub struct EncodingError {
    /// The offending character.
    pub character: char,
}

impl EncodingError {
    /// The text of the error: a fixed sentence that quotes the character.
    pub open spec fn spec_message(self) -> Seq<char> {
        "Failed to encrypt character: '"@.push(self.character).push('\'')
    }

    /// A line of text that names the offending character.
    pub fn message(&self) -> (s: String)
        ensures
            s@ == self.spec_message(),
    {
        let mut s = String::from_str("Failed to encrypt character: '");
        s.push(self.character);
        s.push('\'');
        s
    }
}

} // verus!
