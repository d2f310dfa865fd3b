//! Typed input: what is done to it before it reaches the machine.

use crate::error::EncodingError;
use crate::machine::{encryption_outcome, EnigmaMachine};
use vstd::prelude::*;

verus! {

/// What `str::trim` leaves of a text: the text without the white space at
/// its two ends, as Unicode defines white space.
pub uninterp spec fn trimmed(text: Seq<char>) -> Seq<char>;

/// What `str::to_uppercase` makes of a text: each character replaced by its
/// upper-case form, as Unicode defines it.
pub uninterp spec fn uppercased(text: Seq<char>) -> Seq<char>;

/// Assumed of std's `str::trim`, not proved: it returns the part of the
/// text between its leading and its trailing white space, and the result
/// depends on the text alone. Which characters count as white space is
/// left to std.
pub assume_specification[ str::trim ](s: &str) -> (r: &str)
    ensures
        r@ == trimmed(s@),
;

/// Assumed of std's `str::to_uppercase`, not proved: it returns the
/// upper-case form of the text as a new `String`, and the result depends on
/// the text alone. The upper-case form of each character is left to std.
pub assume_specification[ str::to_uppercase ](s: &str) -> (r: String)
    ensures
        r@ == uppercased(s@),
;

/// The form in which typed input reaches the machine: trimmed, then in
/// upper case.
pub open spec fn normalized(input: Seq<char>) -> Seq<char> {
    uppercased(trimmed(input))
}

/// Encrypts typed input: trims it, puts it in upper case and encrypts the
/// result as a message.
pub fn encrypt_with_enigma(input: String, enigma: &mut EnigmaMachine) -> (r: Result<
    String,
    EncodingError,
>)
    requires
        old(enigma).wf(),
    ensures
        final(enigma).wf(),
        encryption_outcome(old(enigma)@, normalized(input@), r, final(enigma)@),
{
    let processed_input = input.as_str().trim().to_uppercase();
    enigma.encrypt_message(processed_input.as_str())
}

} // verus!
