//! The rotor: a wiring, which is a bijection between the 26 contacts and
//! the alphabet, a position that steps, a ring setting and a notch.

use crate::alphabet::{is_symbol, next_symbol, position_of, symbol_at, symbol_index, symbol_of};
use crate::text::chars_of;
use vstd::prelude::*;

verus! {

/// What a rotor is, as plain mathematical values.
pub struct RotorView {
    pub wiring: Seq<char>,
    pub position: char,
    pub notch: char,
    pub ring: char,
    pub model: Seq<char>,
}

/// Some position at which `c` stands in `w`.
pub open spec fn wiring_index(w: Seq<char>, c: char) -> int {
    choose|i: int| 0 <= i < w.len() && w[i] == c
}

/// A wiring maps the 26 positions one-to-one onto the 26 symbols.
pub open spec fn is_wiring(w: Seq<char>) -> bool {
    &&& w.len() == 26
    &&& forall|i: int| 0 <= i < 26 ==> is_symbol(#[trigger] w[i])
    &&& forall|i: int, j: int| 0 <= i < 26 && 0 <= j < 26 && i != j ==> w[i] != w[j]
    &&& forall|c: char| #[trigger] is_symbol(c) ==> exists|i: int| 0 <= i < 26 && w[i] == c
}

/// Whether, at each of the first `n` positions, `v` leads back from where
/// `w` leads.
pub open spec fn undoes_up_to(w: Seq<char>, v: Seq<char>, n: int) -> bool
    decreases n,
{
    n <= 0 || (is_symbol(w[n - 1]) && v[symbol_index(w[n - 1])] == symbol_at(n - 1)
        && undoes_up_to(w, v, n - 1))
}

/// Two tables of 26 symbols, each leading back from where the other leads.
pub open spec fn inverse_wirings(w: Seq<char>, v: Seq<char>) -> bool {
    &&& w.len() == 26
    &&& v.len() == 26
    &&& undoes_up_to(w, v, 26)
    &&& undoes_up_to(v, w, 26)
}

proof fn lemma_undoes_up_to(w: Seq<char>, v: Seq<char>, n: int)
    requires
        undoes_up_to(w, v, n),
    ensures
        forall|i: int|
            0 <= i < n ==> is_symbol(#[trigger] w[i]) && v[symbol_index(w[i])] == symbol_at(i),
    decreases n,
{
    if n > 0 {
        lemma_undoes_up_to(w, v, n - 1);
    }
}

/// Two tables that undo each other are both wirings.
pub proof fn lemma_inverse_wirings(w: Seq<char>, v: Seq<char>)
    requires
        inverse_wirings(w, v),
    ensures
        is_wiring(w),
        is_wiring(v),
{
    lemma_undoes_up_to(w, v, 26);
    lemma_undoes_up_to(v, w, 26);
    assert forall|c: char| #[trigger] is_symbol(c) implies exists|i: int|
        0 <= i < 26 && w[i] == c by {
        let k = symbol_index(c);
        assert(is_symbol(v[k]));
        assert(w[symbol_index(v[k])] == c);
    }
    assert forall|c: char| #[trigger] is_symbol(c) implies exists|i: int|
        0 <= i < 26 && v[i] == c by {
        let k = symbol_index(c);
        assert(is_symbol(w[k]));
        assert(v[symbol_index(w[k])] == c);
    }
    assert forall|i: int, j: int| 0 <= i < 26 && 0 <= j < 26 && i != j implies w[i] != w[j] by {
        assert(is_symbol(w[i]) && is_symbol(w[j]));
    }
    assert forall|i: int, j: int| 0 <= i < 26 && 0 <= j < 26 && i != j implies v[i] != v[j] by {
        assert(is_symbol(v[i]) && is_symbol(v[j]));
    }
}

impl RotorView {
    /// The wiring is a bijection and the three settings are symbols.
    pub open spec fn wf(self) -> bool {
        &&& is_wiring(self.wiring)
        &&& is_symbol(self.position)
        &&& is_symbol(self.notch)
        &&& is_symbol(self.ring)
    }

    /// Contact reached from contact `pos`, given the rotation and the ring.
    pub open spec fn offset(self, pos: int) -> int {
        (pos + symbol_index(self.position) + symbol_index(self.ring)) % 26
    }

    /// Substitution on the way towards the reflector.
    pub open spec fn forward(self, c: char) -> char {
        self.wiring[self.offset(symbol_index(c))]
    }

    /// Substitution on the way back from the reflector.
    pub open spec fn reverse(self, c: char) -> char {
        symbol_at(
            (wiring_index(self.wiring, c) - symbol_index(self.position) - symbol_index(self.ring)
                + 26) % 26,
        )
    }

    /// The rotor after one step: the position moves to the next symbol.
    pub open spec fn stepped(self) -> RotorView {
        RotorView { position: next_symbol(self.position), ..self }
    }

    /// Whether the rotor stands at its notch.
    pub open spec fn at_notch(self) -> bool {
        self.position == self.notch
    }
}

/// In a wiring, the position of a symbol is unique and holds that symbol.
pub proof fn lemma_wiring_index(w: Seq<char>)
    requires
        is_wiring(w),
    ensures
        forall|i: int| 0 <= i < 26 ==> wiring_index(w, #[trigger] w[i]) == i,
        forall|c: char| #[trigger]
            is_symbol(c) ==> 0 <= wiring_index(w, c) < 26 && w[wiring_index(w, c)] == c,
{
    assert forall|c: char| #[trigger] is_symbol(c) implies 0 <= wiring_index(w, c) < 26
        && w[wiring_index(w, c)] == c by {
        let i = choose|i: int| 0 <= i < 26 && w[i] == c;
        assert(0 <= i < w.len() && w[i] == c);
    }
    assert forall|i: int| 0 <= i < 26 implies wiring_index(w, #[trigger] w[i]) == i by {
        assert(is_symbol(w[i]));
    }
}

/// Shifting a contact by the rotation and the ring, and shifting it back,
/// returns to the contact.
proof fn lemma_shift_round_trip(x: int, p: int, g: int)
    requires
        0 <= x < 26,
        0 <= p < 26,
        0 <= g < 26,
    ensures
        0 <= (x + p + g) % 26 < 26,
        ((x + p + g) % 26 - p - g + 26) % 26 == x,
        0 <= (x - p - g + 26) % 26 < 26,
        ((x - p - g + 26) % 26 + p + g) % 26 == x,
{
}

/// Adding one turn of the wheel does not change a contact.
proof fn lemma_mod_26_shift(x: int)
    ensures
        (x + 26) % 26 == x % 26,
{
}

/// For a fixed rotor state the two substitutions undo each other, and both
/// stay inside the alphabet.
pub proof fn lemma_rotor_round_trip(r: RotorView, c: char)
    requires
        r.wf(),
        is_symbol(c),
    ensures
        is_symbol(r.forward(c)),
        is_symbol(r.reverse(c)),
        r.reverse(r.forward(c)) == c,
        r.forward(r.reverse(c)) == c,
{
    lemma_wiring_index(r.wiring);
    let p = symbol_index(r.position);
    let g = symbol_index(r.ring);
    let k = r.offset(symbol_index(c));
    lemma_shift_round_trip(symbol_index(c), p, g);
    assert(is_symbol(r.wiring[k]));
    assert(wiring_index(r.wiring, r.wiring[k]) == k);
    let i = wiring_index(r.wiring, c);
    assert(0 <= i < 26 && r.wiring[i] == c);
    lemma_shift_round_trip(i, p, g);
}

/// One wheel of the machine: a fixed wiring, a rotating position, a ring
/// setting and a notch.
pub struct Rotor {
    letter_roll: Vec<char>,
    position: char,
    notch: char,
    ring: char,
    model: String,
}

impl View for Rotor {
    type V = RotorView;

    closed spec fn view(&self) -> RotorView {
        RotorView {
            wiring: self.letter_roll@,
            position: self.position,
            notch: self.notch,
            ring: self.ring,
            model: self.model@,
        }
    }
}

impl Rotor {
    /// The rotor's wiring is a bijection and its settings are symbols.
    pub open spec fn wf(&self) -> bool {
        self@.wf()
    }

    /// Builds a rotor from an explicit wiring and its settings.
    pub fn new(letter_roll: &str, position: char, notch: char, model: &str, ring: char) -> (r:
        Rotor)
        requires
            is_wiring(letter_roll@),
            is_symbol(position),
            is_symbol(notch),
            is_symbol(ring),
        ensures
            r.wf(),
            r@ == (RotorView { wiring: letter_roll@, position, notch, ring, model: model@ }),
    {
        Rotor {
            letter_roll: chars_of(letter_roll),
            position,
            notch,
            ring,
            model: String::from_str(model),
        }
    }

    /// Whether `wiring` is a wiring: 26 symbols, each symbol once.
    pub fn is_valid_wiring(wiring: &str) -> (ok: bool)
        ensures
            ok == is_wiring(wiring@),
    {
        let chars = chars_of(wiring);
        if chars.len() != 26 {
            return false;
        }
        let mut seen: Vec<bool> = Vec::new();
        let mut k: usize = 0;
        while k < 26
            invariant
                k <= 26,
                seen.len() == k,
                forall|s: int| 0 <= s < k ==> !seen@[s],
            decreases 26 - k,
        {
            seen.push(false);
            k += 1;
        }
        let ghost mut place: Seq<int> = Seq::new(26, |s: int| 0int);
        let mut i: usize = 0;
        while i < 26
            invariant
                chars@ == wiring@,
                chars.len() == 26,
                seen.len() == 26,
                place.len() == 26,
                i <= 26,
                forall|j: int| 0 <= j < i ==> is_symbol(#[trigger] chars@[j]),
                forall|j: int, l: int| 0 <= j < l < i ==> chars@[j] != chars@[l],
                forall|s: int|
                    0 <= s < 26 && #[trigger] seen@[s] ==> 0 <= place[s] < i && chars@[place[s]]
                        == symbol_at(s),
                forall|s: int, j: int|
                    0 <= s < 26 && !(#[trigger] seen@[s]) && 0 <= j < i ==> #[trigger] chars@[j]
                        != symbol_at(s),
            decreases 26 - i,
        {
            let c = chars[i];
            match position_of(c) {
                None => {
                    return false;
                },
                Some(at) => {
                    if seen[at] {
                        assert(chars@[place[at as int]] == chars@[i as int]);
                        return false;
                    }
                    seen.set(at, true);
                    proof {
                        place = place.update(at as int, i as int);
                    }
                },
            }
            i += 1;
        }
        let mut s: usize = 0;
        while s < 26
            invariant
                chars@ == wiring@,
                chars.len() == 26,
                seen.len() == 26,
                place.len() == 26,
                s <= 26,
                forall|t: int| 0 <= t < s ==> seen@[t],
                forall|t: int|
                    0 <= t < 26 && #[trigger] seen@[t] ==> 0 <= place[t] < 26 && chars@[place[t]]
                        == symbol_at(t),
                forall|t: int, j: int|
                    0 <= t < 26 && !(#[trigger] seen@[t]) && 0 <= j < 26 ==> #[trigger] chars@[j]
                        != symbol_at(t),
            decreases 26 - s,
        {
            if !seen[s] {
                proof {
                    let missing = symbol_at(s as int);
                    assert(is_symbol(missing));
                    assert(forall|j: int| 0 <= j < 26 ==> #[trigger] chars@[j] != missing);
                }
                return false;
            }
            s += 1;
        }
        proof {
            assert forall|c: char| #[trigger] is_symbol(c) implies exists|j: int|
                0 <= j < 26 && wiring@[j] == c by {
                let t = symbol_index(c);
                assert(seen@[t]);
                assert(wiring@[place[t]] == c);
            }
            assert forall|j: int, l: int| 0 <= j < 26 && 0 <= l < 26 && j != l implies wiring@[j]
                != wiring@[l] by {
                if j < l {
                    assert(chars@[j] != chars@[l]);
                } else {
                    assert(chars@[l] != chars@[j]);
                }
            }
        }
        true
    }

    /// The position of `c` in the alphabet, if it is a symbol.
    pub fn position_of(c: char) -> (r: Option<usize>)
        ensures
            r == (if is_symbol(c) {
                Some(symbol_index(c) as usize)
            } else {
                None
            }),
    {
        position_of(c)
    }

    /// The contact that contact `pos` reaches under the current rotation
    /// and ring setting.
    pub fn offset_position(&self, pos: usize) -> (r: usize)
        requires
            self.wf(),
        ensures
            r == self@.offset(pos as int),
    {
        let p: usize = (self.position as u32 - 'A' as u32) as usize;
        let g: usize = (self.ring as u32 - 'A' as u32) as usize;
        (pos % 26 + p + g) % 26
    }

    /// Advances the rotor by one position and reports whether it now stands
    /// at its notch.
    pub fn turn(&mut self) -> (at_notch: bool)
        requires
            old(self).wf(),
        ensures
            final(self).wf(),
            final(self)@ == old(self)@.stepped(),
            at_notch == final(self)@.at_notch(),
    {
        let p: usize = (self.position as u32 - 'A' as u32) as usize;
        self.position = symbol_of((p + 1) % 26);
        self.position == self.notch
    }

    /// Substitutes `c` on the way towards the reflector. `None` reports a
    /// character outside the alphabet.
    pub fn pass_through_forward(&self, c: char) -> (r: Option<char>)
        requires
            self.wf(),
        ensures
            r == (if is_symbol(c) {
                Some(self@.forward(c))
            } else {
                None
            }),
    {
        match position_of(c) {
            Some(input_pos) => {
                let offset_input_pos = self.offset_position(input_pos);
                Some(self.letter_roll[offset_input_pos])
            },
            None => None,
        }
    }

    /// Substitutes `c` on the way back from the reflector. `None` reports a
    /// character outside the alphabet.
    pub fn pass_through_reverse(&self, c: char) -> (r: Option<char>)
        requires
            self.wf(),
        ensures
            r == (if is_symbol(c) {
                Some(self@.reverse(c))
            } else {
                None
            }),
    {
        if !('A' <= c && c <= 'Z') {
            return None;
        }
        let ghost target = wiring_index(self@.wiring, c);
        proof {
            assert(is_symbol(c));
            lemma_wiring_index(self@.wiring);
        }
        let p: usize = (self.position as u32 - 'A' as u32) as usize;
        let g: usize = (self.ring as u32 - 'A' as u32) as usize;
        let mut i: usize = 0;
        while self.letter_roll[i] != c
            invariant
                self.letter_roll@ == self@.wiring,
                self@.wiring.len() == 26,
                i <= target < 26,
                self@.wiring[target] == c,
            decreases 26 - i,
        {
            i += 1;
        }
        assert(i == target) by {
            lemma_wiring_index(self@.wiring);
        }
        assert((i + 52 - p - g) % 26 == (target - symbol_index(self@.position) - symbol_index(
            self@.ring,
        ) + 26) % 26) by {
            lemma_mod_26_shift(target - p - g + 26);
        }
        Some(symbol_of((i + 52 - p - g) % 26))
    }

    /// The symbol the rotor currently shows.
    pub fn position(&self) -> (c: char)
        ensures
            c == self@.position,
    {
        self.position
    }

    /// The symbol at which the rotor makes its neighbour step.
    pub fn notch(&self) -> (c: char)
        ensures
            c == self@.notch,
    {
        self.notch
    }

    /// The rotor's ring setting.
    pub fn ring(&self) -> (c: char)
        ensures
            c == self@.ring,
    {
        self.ring
    }

    /// The rotor's label.
    pub fn model(&self) -> (s: &str)
        ensures
            s@ == self@.model,
    {
        self.model.as_str()
    }
}

} // verus!
