//! The reflector: a wiring that pairs the symbols up.

use crate::alphabet::{is_symbol, lemma_index_round_trip, position_of, symbol_at, symbol_index};
use crate::text::chars_of;
use vstd::prelude::*;

verus! {

/// What a reflector is, as plain mathematical values.
pub struct ReflectorView {
    pub wiring: Seq<char>,
    pub model: Seq<char>,
}

/// A reflector wiring pairs the 26 symbols up: no symbol is wired to
/// itself, and each symbol's partner is wired back to it.
pub open spec fn is_reflector_wiring(w: Seq<char>) -> bool {
    &&& w.len() == 26
    &&& forall|i: int|
        0 <= i < 26 ==> is_symbol(#[trigger] w[i]) && w[i] != symbol_at(i) && w[symbol_index(
            w[i],
        )] == symbol_at(i)
}

/// Whether the first `n` positions of `w` are wired as in a reflector.
pub open spec fn reflects_up_to(w: Seq<char>, n: int) -> bool
    decreases n,
{
    n <= 0 || (is_symbol(w[n - 1]) && w[n - 1] != symbol_at(n - 1) && w[symbol_index(w[n - 1])]
        == symbol_at(n - 1) && reflects_up_to(w, n - 1))
}

proof fn lemma_reflects_up_to(w: Seq<char>, n: int)
    requires
        reflects_up_to(w, n),
    ensures
        forall|i: int|
            0 <= i < n ==> is_symbol(#[trigger] w[i]) && w[i] != symbol_at(i) && w[symbol_index(
                w[i],
            )] == symbol_at(i),
    decreases n,
{
    if n > 0 {
        lemma_reflects_up_to(w, n - 1);
    }
}

/// A table of 26 symbols that is wired as a reflector at every position
/// is a reflector wiring.
pub proof fn lemma_reflector_wiring(w: Seq<char>)
    requires
        w.len() == 26,
        reflects_up_to(w, 26),
    ensures
        is_reflector_wiring(w),
{
    lemma_reflects_up_to(w, 26);
}

impl ReflectorView {
    /// The wiring pairs the symbols up.
    pub open spec fn wf(self) -> bool {
        is_reflector_wiring(self.wiring)
    }

    /// The symbol that `c` is wired to.
    pub open spec fn reflect(self, c: char) -> char {
        self.wiring[symbol_index(c)]
    }
}

/// Reflecting twice returns to the symbol, and no symbol reflects to
/// itself.
pub proof fn lemma_reflector_involution(r: ReflectorView, c: char)
    requires
        r.wf(),
        is_symbol(c),
    ensures
        is_symbol(r.reflect(c)),
        r.reflect(r.reflect(c)) == c,
        r.reflect(c) != c,
{
    let i = symbol_index(c);
    assert(is_symbol(r.wiring[i]));
}

/// The fixed wiring at the end of the rotor assembly, which sends the
/// signal back through the rotors.
pub struct Reflector {
    wiring: Vec<char>,
    model: String,
}

impl View for Reflector {
    type V = ReflectorView;

    closed spec fn view(&self) -> ReflectorView {
        ReflectorView { wiring: self.wiring@, model: self.model@ }
    }
}

impl Reflector {
    /// The reflector's wiring pairs the symbols up.
    pub open spec fn wf(&self) -> bool {
        self@.wf()
    }

    /// Builds a reflector from an explicit wiring.
    pub fn new(wiring: &str, model: &str) -> (r: Reflector)
        requires
            is_reflector_wiring(wiring@),
        ensures
            r.wf(),
            r@ == (ReflectorView { wiring: wiring@, model: model@ }),
    {
        Reflector { wiring: chars_of(wiring), model: String::from_str(model) }
    }

    /// Whether `wiring` is a reflector wiring: 26 symbols that pair the
    /// alphabet up, none of them wired to itself.
    pub fn is_valid_wiring(wiring: &str) -> (ok: bool)
        ensures
            ok == is_reflector_wiring(wiring@),
    {
        let chars = chars_of(wiring);
        if chars.len() != 26 {
            return false;
        }
        let mut i: usize = 0;
        while i < 26
            invariant
                chars@ == wiring@,
                chars.len() == 26,
                i <= 26,
                forall|j: int|
                    0 <= j < i ==> is_symbol(#[trigger] chars@[j]) && chars@[j] != symbol_at(j)
                        && chars@[symbol_index(chars@[j])] == symbol_at(j),
            decreases 26 - i,
        {
            let c = chars[i];
            match position_of(c) {
                None => {
                    return false;
                },
                Some(partner) => {
                    if partner == i || position_of(chars[partner]) != Some(i) {
                        proof {
                            lemma_index_round_trip(chars@[partner as int], i as int);
                        }
                        return false;
                    }
                    proof {
                        lemma_index_round_trip(chars@[partner as int], i as int);
                    }
                },
            }
            i += 1;
        }
        true
    }

    /// Substitutes `char_in` by the symbol it is wired to. `None` reports a
    /// character outside the alphabet.
    pub fn encrypt(&self, char_in: char) -> (r: Option<char>)
        requires
            self.wf(),
        ensures
            r == (if is_symbol(char_in) {
                Some(self@.reflect(char_in))
            } else {
                None
            }),
    {
        match position_of(char_in) {
            Some(index) => Some(self.wiring[index]),
            None => None,
        }
    }

    /// The reflector's label.
    pub fn model(&self) -> (s: &str)
        ensures
            s@ == self@.model,
    {
        self.model.as_str()
    }
}

} // verus!
