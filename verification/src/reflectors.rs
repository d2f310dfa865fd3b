//! The two preset reflectors.

use crate::error::ConfigurationError;
use crate::reflector::{lemma_reflector_wiring, reflects_up_to, Reflector, ReflectorView};
use crate::text::same_text;
use vstd::prelude::*;

verus! {

/// The view of reflector UKW-B.
pub open spec fn ukw_b_view() -> ReflectorView {
    ReflectorView { wiring: "YRUHQSLDPXNGOKMIEBFZCWVJAT"@, model: "UKW-B"@ }
}

/// The view of reflector UKW-C.
pub open spec fn ukw_c_view() -> ReflectorView {
    ReflectorView { wiring: "FVPJIAOYEDRZXWGCTKUQSBNMHL"@, model: "UKW-C"@ }
}

/// The preset reflector that goes by `name`, if there is one.
pub open spec fn named_reflector(name: Seq<char>) -> Option<ReflectorView> {
    if name == "ukw_b"@ {
        Some(ukw_b_view())
    } else if name == "ukw_c"@ {
        Some(ukw_c_view())
    } else {
        None
    }
}

/// Both preset reflectors are well formed.
pub proof fn lemma_presets_wf()
    ensures
        ukw_b_view().wf(),
        ukw_c_view().wf(),
{
    reveal_strlit("YRUHQSLDPXNGOKMIEBFZCWVJAT");
    reveal_strlit("FVPJIAOYEDRZXWGCTKUQSBNMHL");
    assert(reflects_up_to("YRUHQSLDPXNGOKMIEBFZCWVJAT"@, 26)) by {
        reveal_with_fuel(reflects_up_to, 27);
    }
    assert(reflects_up_to("FVPJIAOYEDRZXWGCTKUQSBNMHL"@, 26)) by {
        reveal_with_fuel(reflects_up_to, 27);
    }
    lemma_reflector_wiring("YRUHQSLDPXNGOKMIEBFZCWVJAT"@);
    lemma_reflector_wiring("FVPJIAOYEDRZXWGCTKUQSBNMHL"@);
}

/// Reflector UKW-B.
pub fn ukw_b() -> (r: Reflector)
    ensures
        r.wf(),
        r@ == ukw_b_view(),
{
    proof {
        lemma_presets_wf();
    }
    Reflector::new("YRUHQSLDPXNGOKMIEBFZCWVJAT", "UKW-B")
}

/// Reflector UKW-C.
pub fn ukw_c() -> (r: Reflector)
    ensures
        r.wf(),
        r@ == ukw_c_view(),
{
    proof {
        lemma_presets_wf();
    }
    Reflector::new("FVPJIAOYEDRZXWGCTKUQSBNMHL", "UKW-C")
}

/// The preset reflector that goes by `name`: `ukw_b` or `ukw_c`. Any other
/// name is an error.
pub fn from_name(name: &str) -> (r: Result<Reflector, ConfigurationError>)
    ensures
        match r {
            Ok(reflector) => reflector.wf() && named_reflector(name@) == Some(reflector@),
            Err(e) => named_reflector(name@).is_none() && e
                == ConfigurationError::UnknownReflector,
        },
{
    if same_text(name, "ukw_b") {
        Ok(ukw_b())
    } else if same_text(name, "ukw_c") {
        Ok(ukw_c())
    } else {
        Err(ConfigurationError::UnknownReflector)
    }
}

} // verus!
