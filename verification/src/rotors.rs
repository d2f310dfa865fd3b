//! The five preset rotors.

use crate::alphabet::is_symbol;
use crate::error::ConfigurationError;
use crate::rotor::{inverse_wirings, is_wiring, lemma_inverse_wirings, undoes_up_to, Rotor, RotorView};
use crate::text::same_text;
use vstd::prelude::*;

verus! {

/// The view of rotor I at position `p` with ring setting `r`.
pub open spec fn type_i_view(p: char, r: char) -> RotorView {
    RotorView { wiring: "EKMFLGDQVZNTOWYHXUSPAIBRCJ"@, position: p, notch: 'R', ring: r, model: "type I"@ }
}

/// The view of rotor II at position `p` with ring setting `r`.
pub open spec fn type_ii_view(p: char, r: char) -> RotorView {
    RotorView { wiring: "AJDKSIRUXBLHWTMCQGZNPYFVOE"@, position: p, notch: 'F', ring: r, model: "type II"@ }
}

/// The view of rotor III at position `p` with ring setting `r`.
pub open spec fn type_iii_view(p: char, r: char) -> RotorView {
    RotorView { wiring: "BDFHJLCPRTXVZNYEIWGAKMUSQO"@, position: p, notch: 'W', ring: r, model: "type III"@ }
}

/// The view of rotor IV at position `p` with ring setting `r`.
pub open spec fn type_iv_view(p: char, r: char) -> RotorView {
    RotorView { wiring: "ESOVPZJAYQUIRHXLNFTGKDCMWB"@, position: p, notch: 'K', ring: r, model: "type IV"@ }
}

/// The view of rotor V at position `p` with ring setting `r`.
pub open spec fn type_v_view(p: char, r: char) -> RotorView {
    RotorView { wiring: "VZBRGITYUPSDNHLXAWMJQOFECK"@, position: p, notch: 'A', ring: r, model: "type V"@ }
}

/// The preset rotor that goes by `name`, at position `p` with ring setting
/// `r`, if there is one. Each preset goes by two names.
pub open spec fn named_rotor(name: Seq<char>, p: char, r: char) -> Option<RotorView> {
    if name == "type_i"@ || name == "i"@ {
        Some(type_i_view(p, r))
    } else if name == "type_ii"@ || name == "ii"@ {
        Some(type_ii_view(p, r))
    } else if name == "type_iii"@ || name == "iii"@ {
        Some(type_iii_view(p, r))
    } else if name == "type_iv"@ || name == "iv"@ {
        Some(type_iv_view(p, r))
    } else if name == "type_v"@ || name == "v"@ {
        Some(type_v_view(p, r))
    } else {
        None
    }
}

/// The wiring of rotor I is a bijection: the second table undoes it.
pub proof fn lemma_type_i_wiring()
    ensures
        is_wiring("EKMFLGDQVZNTOWYHXUSPAIBRCJ"@),
{
    reveal_strlit("EKMFLGDQVZNTOWYHXUSPAIBRCJ");
    reveal_strlit("UWYGADFPVZBECKMTHXSLRINQOJ");
    assert(inverse_wirings("EKMFLGDQVZNTOWYHXUSPAIBRCJ"@, "UWYGADFPVZBECKMTHXSLRINQOJ"@)) by {
        reveal_with_fuel(undoes_up_to, 27);
    }
    lemma_inverse_wirings("EKMFLGDQVZNTOWYHXUSPAIBRCJ"@, "UWYGADFPVZBECKMTHXSLRINQOJ"@);
}

/// The wiring of rotor II is a bijection: the second table undoes it.
pub proof fn lemma_type_ii_wiring()
    ensures
        is_wiring("AJDKSIRUXBLHWTMCQGZNPYFVOE"@),
{
    reveal_strlit("AJDKSIRUXBLHWTMCQGZNPYFVOE");
    reveal_strlit("AJPCZWRLFBDKOTYUQGENHXMIVS");
    assert(inverse_wirings("AJDKSIRUXBLHWTMCQGZNPYFVOE"@, "AJPCZWRLFBDKOTYUQGENHXMIVS"@)) by {
        reveal_with_fuel(undoes_up_to, 27);
    }
    lemma_inverse_wirings("AJDKSIRUXBLHWTMCQGZNPYFVOE"@, "AJPCZWRLFBDKOTYUQGENHXMIVS"@);
}

/// The wiring of rotor III is a bijection: the second table undoes it.
pub proof fn lemma_type_iii_wiring()
    ensures
        is_wiring("BDFHJLCPRTXVZNYEIWGAKMUSQO"@),
{
    reveal_strlit("BDFHJLCPRTXVZNYEIWGAKMUSQO");
    reveal_strlit("TAGBPCSDQEUFVNZHYIXJWLRKOM");
    assert(inverse_wirings("BDFHJLCPRTXVZNYEIWGAKMUSQO"@, "TAGBPCSDQEUFVNZHYIXJWLRKOM"@)) by {
        reveal_with_fuel(undoes_up_to, 27);
    }
    lemma_inverse_wirings("BDFHJLCPRTXVZNYEIWGAKMUSQO"@, "TAGBPCSDQEUFVNZHYIXJWLRKOM"@);
}

/// The wiring of rotor IV is a bijection: the second table undoes it.
pub proof fn lemma_type_iv_wiring()
    ensures
        is_wiring("ESOVPZJAYQUIRHXLNFTGKDCMWB"@),
{
    reveal_strlit("ESOVPZJAYQUIRHXLNFTGKDCMWB");
    reveal_strlit("HZWVARTNLGUPXQCEJMBSKDYOIF");
    assert(inverse_wirings("ESOVPZJAYQUIRHXLNFTGKDCMWB"@, "HZWVARTNLGUPXQCEJMBSKDYOIF"@)) by {
        reveal_with_fuel(undoes_up_to, 27);
    }
    lemma_inverse_wirings("ESOVPZJAYQUIRHXLNFTGKDCMWB"@, "HZWVARTNLGUPXQCEJMBSKDYOIF"@);
}

/// The wiring of rotor V is a bijection: the second table undoes it.
pub proof fn lemma_type_v_wiring()
    ensures
        is_wiring("VZBRGITYUPSDNHLXAWMJQOFECK"@),
{
    reveal_strlit("VZBRGITYUPSDNHLXAWMJQOFECK");
    reveal_strlit("QCYLXWENFTZOSMVJUDKGIARPHB");
    assert(inverse_wirings("VZBRGITYUPSDNHLXAWMJQOFECK"@, "QCYLXWENFTZOSMVJUDKGIARPHB"@)) by {
        reveal_with_fuel(undoes_up_to, 27);
    }
    lemma_inverse_wirings("VZBRGITYUPSDNHLXAWMJQOFECK"@, "QCYLXWENFTZOSMVJUDKGIARPHB"@);
}

/// Rotor I, at position `p` with ring setting `r`.
pub fn type_i(p: char, r: char) -> (rotor: Rotor)
    requires
        is_symbol(p),
        is_symbol(r),
    ensures
        rotor.wf(),
        rotor@ == type_i_view(p, r),
{
    proof {
        lemma_type_i_wiring();
    }
    Rotor::new("EKMFLGDQVZNTOWYHXUSPAIBRCJ", p, 'R', "type I", r)
}

/// Rotor II, at position `p` with ring setting `r`.
pub fn type_ii(p: char, r: char) -> (rotor: Rotor)
    requires
        is_symbol(p),
        is_symbol(r),
    ensures
        rotor.wf(),
        rotor@ == type_ii_view(p, r),
{
    proof {
        lemma_type_ii_wiring();
    }
    Rotor::new("AJDKSIRUXBLHWTMCQGZNPYFVOE", p, 'F', "type II", r)
}

/// Rotor III, at position `p` with ring setting `r`.
pub fn type_iii(p: char, r: char) -> (rotor: Rotor)
    requires
        is_symbol(p),
        is_symbol(r),
    ensures
        rotor.wf(),
        rotor@ == type_iii_view(p, r),
{
    proof {
        lemma_type_iii_wiring();
    }
    Rotor::new("BDFHJLCPRTXVZNYEIWGAKMUSQO", p, 'W', "type III", r)
}

/// Rotor IV, at position `p` with ring setting `r`.
pub fn type_iv(p: char, r: char) -> (rotor: Rotor)
    requires
        is_symbol(p),
        is_symbol(r),
    ensures
        rotor.wf(),
        rotor@ == type_iv_view(p, r),
{
    proof {
        lemma_type_iv_wiring();
    }
    Rotor::new("ESOVPZJAYQUIRHXLNFTGKDCMWB", p, 'K', "type IV", r)
}

/// Rotor V, at position `p` with ring setting `r`.
pub fn type_v(p: char, r: char) -> (rotor: Rotor)
    requires
        is_symbol(p),
        is_symbol(r),
    ensures
        rotor.wf(),
        rotor@ == type_v_view(p, r),
{
    proof {
        lemma_type_v_wiring();
    }
    Rotor::new("VZBRGITYUPSDNHLXAWMJQOFECK", p, 'A', "type V", r)
}

/// The preset rotor that goes by `name`, at position `p` with ring setting
/// `r`. An unknown name is an error, and so is, for a known name, a
/// position or ring setting outside the alphabet.
pub fn from_name(name: &str, p: char, r: char) -> (res: Result<Rotor, ConfigurationError>)
    ensures
        match res {
            Ok(rotor) => rotor.wf() && named_rotor(name@, p, r) == Some(rotor@),
            Err(e) => e == rotor_error(name@, p, r).unwrap(),
        },
        res.is_ok() <==> rotor_error(name@, p, r).is_none(),
{
    let one = same_text(name, "type_i") || same_text(name, "i");
    let two = same_text(name, "type_ii") || same_text(name, "ii");
    let three = same_text(name, "type_iii") || same_text(name, "iii");
    let four = same_text(name, "type_iv") || same_text(name, "iv");
    let five = same_text(name, "type_v") || same_text(name, "v");
    if !(one || two || three || four || five) {
        return Err(ConfigurationError::UnknownRotor);
    }
    if !('A' <= p && p <= 'Z' && 'A' <= r && r <= 'Z') {
        return Err(ConfigurationError::InvalidRotorSetting);
    }
    if one {
        Ok(type_i(p, r))
    } else if two {
        Ok(type_ii(p, r))
    } else if three {
        Ok(type_iii(p, r))
    } else if four {
        Ok(type_iv(p, r))
    } else {
        Ok(type_v(p, r))
    }
}

/// Why no rotor can be had under `name` at position `p` with ring setting
/// `r`, if that is so.
pub open spec fn rotor_error(name: Seq<char>, p: char, r: char) -> Option<ConfigurationError> {
    if named_rotor(name, p, r).is_none() {
        Some(ConfigurationError::UnknownRotor)
    } else if !is_symbol(p) || !is_symbol(r) {
        Some(ConfigurationError::InvalidRotorSetting)
    } else {
        None
    }
}

} // verus!
