//! The machine: how the rotors step on a key press, how one symbol is
//! substituted, and how a message is encrypted.

use crate::alphabet::{all_symbols, is_symbol};
use crate::error::EncodingError;
use crate::plugboard::{lemma_plug_involution, plug, valid_pairs, Plugboard};
use crate::reflector::{lemma_reflector_involution, Reflector, ReflectorView};
use crate::rotor::{lemma_rotor_round_trip, Rotor, RotorView};
use vstd::prelude::*;

verus! {

/// What a machine is, as plain mathematical values: the rotors in assembly
/// order, the reflector, and the plugboard's pairs.
pub struct MachineView {
    pub rotors: Seq<RotorView>,
    pub reflector: ReflectorView,
    pub plugboard: Seq<(char, char)>,
}

/// The views of a sequence of rotors.
pub open spec fn rotor_views(rotors: Seq<Rotor>) -> Seq<RotorView> {
    Seq::new(rotors.len(), |i: int| rotors[i]@)
}

/// Every rotor of the assembly is well formed.
pub open spec fn rotors_wf(rotors: Seq<RotorView>) -> bool {
    forall|i: int| 0 <= i < rotors.len() ==> (#[trigger] rotors[i]).wf()
}

/// The forward pass: `c` goes through the rotors in assembly order.
pub open spec fn forward_pass(rotors: Seq<RotorView>, c: char) -> char
    decreases rotors.len(),
{
    if rotors.len() == 0 {
        c
    } else {
        rotors.last().forward(forward_pass(rotors.drop_last(), c))
    }
}

/// The reverse pass: `c` goes through the rotors in reverse assembly order.
pub open spec fn reverse_pass(rotors: Seq<RotorView>, c: char) -> char
    decreases rotors.len(),
{
    if rotors.len() == 0 {
        c
    } else {
        reverse_pass(rotors.drop_last(), rotors.last().reverse(c))
    }
}

/// Whether each of the rotors `j + 1` to `i` reaches its notch when it
/// steps.
pub open spec fn carries(rotors: Seq<RotorView>, j: int, i: int) -> bool {
    forall|k: int| j < k <= i ==> (#[trigger] rotors[k]).stepped().at_notch()
}

/// The rotors after one key press: a rotor has stepped if every rotor to
/// its right reaches its notch when it steps, which holds of the last
/// rotor for want of rotors to its right.
pub open spec fn key_press(rotors: Seq<RotorView>) -> Seq<RotorView> {
    Seq::new(
        rotors.len(),
        |j: int|
            if carries(rotors, j, rotors.len() - 1) {
                rotors[j].stepped()
            } else {
                rotors[j]
            },
    )
}

/// The same key press told step by step: rotor `i` steps, and then its
/// left neighbours one after the other for as long as the rotor just
/// stepped has reached its notch.
pub open spec fn cascade(rotors: Seq<RotorView>, i: int) -> Seq<RotorView>
    decreases i + 1,
{
    if i < 0 || i >= rotors.len() {
        rotors
    } else {
        let stepped = rotors.update(i, rotors[i].stepped());
        if stepped[i].at_notch() {
            cascade(stepped, i - 1)
        } else {
            stepped
        }
    }
}

/// The index of the first character of `text` that is not a symbol; the
/// length of `text` if all are.
pub open spec fn first_invalid(text: Seq<char>) -> int
    decreases text.len(),
{
    if text.len() == 0 {
        0
    } else if !is_symbol(text[0]) {
        0
    } else {
        1 + first_invalid(text.drop_first())
    }
}

impl MachineView {
    /// The assembly is not empty and every part is well formed.
    pub open spec fn wf(self) -> bool {
        &&& self.rotors.len() > 0
        &&& rotors_wf(self.rotors)
        &&& self.reflector.wf()
        &&& valid_pairs(self.plugboard)
    }

    /// The machine after one key press. The last rotor has stepped. Any
    /// other rotor has stepped if every rotor to its right reached its
    /// notch in that key press, and stands as it stood otherwise.
    pub open spec fn advance(self) -> MachineView {
        MachineView { rotors: key_press(self.rotors), ..self }
    }

    /// The machine after `n` key presses.
    pub open spec fn after(self, n: nat) -> MachineView
        decreases n,
    {
        if n == 0 {
            self
        } else {
            self.after((n - 1) as nat).advance()
        }
    }

    /// The substitution of one symbol with the rotors as they stand:
    /// plugboard, forward pass, reflector, reverse pass, plugboard.
    pub open spec fn substitute(self, c: char) -> char {
        plug(
            self.plugboard,
            reverse_pass(
                self.rotors,
                self.reflector.reflect(forward_pass(self.rotors, plug(self.plugboard, c))),
            ),
        )
    }

    /// The `i`-th character of the ciphertext of `text`: the substitution
    /// of its `i`-th character after `i + 1` key presses.
    pub open spec fn cipher_at(self, text: Seq<char>, i: int) -> char {
        self.after((i + 1) as nat).substitute(text[i])
    }

    /// The ciphertext of `text`.
    pub open spec fn cipher(self, text: Seq<char>) -> Seq<char> {
        Seq::new(text.len(), |i: int| self.cipher_at(text, i))
    }
}

/// What encrypting `text` on the machine `before` comes to. Where every
/// character is a symbol, the result is the ciphertext and the machine has
/// had one key press for each character. Otherwise the result is an error
/// that names the first character that is no symbol, and the machine has
/// had the key presses up to and including the one for that character.
pub open spec fn encryption_outcome(
    before: MachineView,
    text: Seq<char>,
    result: Result<String, EncodingError>,
    after: MachineView,
) -> bool {
    match result {
        Ok(ciphertext) => {
            &&& all_symbols(text)
            &&& ciphertext@ == before.cipher(text)
            &&& after == before.after(text.len())
        },
        Err(e) => {
            &&& first_invalid(text) < text.len()
            &&& e.character == text[first_invalid(text)]
            &&& after == before.after((first_invalid(text) + 1) as nat)
        },
    }
}

/// On well-formed rotors the two passes stay inside the alphabet and undo
/// each other.
pub proof fn lemma_passes_round_trip(rotors: Seq<RotorView>, c: char)
    requires
        rotors_wf(rotors),
        is_symbol(c),
    ensures
        is_symbol(forward_pass(rotors, c)),
        is_symbol(reverse_pass(rotors, c)),
        reverse_pass(rotors, forward_pass(rotors, c)) == c,
        forward_pass(rotors, reverse_pass(rotors, c)) == c,
    decreases rotors.len(),
{
    if rotors.len() > 0 {
        let inner = rotors.drop_last();
        let last = rotors.last();
        assert(last.wf());
        assert(rotors_wf(inner)) by {
            assert forall|i: int| 0 <= i < inner.len() implies (#[trigger] inner[i]).wf() by {
                assert(inner[i] == rotors[i]);
            }
        }
        lemma_passes_round_trip(inner, c);
        lemma_rotor_round_trip(last, forward_pass(inner, c));
        lemma_rotor_round_trip(last, c);
        lemma_passes_round_trip(inner, last.reverse(c));
    }
}

/// What the stepping that starts at rotor `i` does to rotor `j`: the rotor
/// steps if it is rotor `i` or to its left and every rotor between the two,
/// rotor `i` included, reaches its notch; otherwise it stays as it is.
pub proof fn lemma_cascade_at(rotors: Seq<RotorView>, i: int, j: int)
    requires
        -1 <= i < rotors.len(),
        0 <= j < rotors.len(),
    ensures
        cascade(rotors, i).len() == rotors.len(),
        cascade(rotors, i)[j] == (if j <= i && carries(rotors, j, i) {
            rotors[j].stepped()
        } else {
            rotors[j]
        }),
    decreases i + 1,
{
    if i >= 0 {
        let stepped = rotors.update(i, rotors[i].stepped());
        if stepped[i].at_notch() {
            lemma_cascade_at(stepped, i - 1, j);
            if j < i {
                if carries(stepped, j, i - 1) {
                    assert forall|k: int| j < k <= i implies (#[trigger] rotors[k])
                        .stepped().at_notch() by {
                        if k < i {
                            assert(stepped[k].stepped().at_notch());
                        }
                    }
                } else {
                    let k = choose|k: int|
                        j < k <= i - 1 && !(#[trigger] stepped[k]).stepped().at_notch();
                    assert(!rotors[k].stepped().at_notch());
                }
            }
        } else {
            if j < i {
                assert(!rotors[i].stepped().at_notch());
            }
        }
    }
}

/// Stepping the last rotor and letting the stepping ripple leftwards is
/// one key press.
pub proof fn lemma_cascade_is_key_press(rotors: Seq<RotorView>)
    ensures
        cascade(rotors, rotors.len() - 1) == key_press(rotors),
{
    let n = rotors.len() as int;
    assert forall|j: int| 0 <= j < n implies cascade(rotors, n - 1)[j] == key_press(rotors)[j] by {
        lemma_cascade_at(rotors, n - 1, j);
    }
    if n > 0 {
        lemma_cascade_at(rotors, n - 1, 0);
    }
    assert(cascade(rotors, n - 1) =~= key_press(rotors));
}

/// One key press always steps the last rotor, and it keeps every rotor
/// well formed.
pub proof fn lemma_key_press(rotors: Seq<RotorView>)
    requires
        rotors.len() > 0,
        rotors_wf(rotors),
    ensures
        key_press(rotors).len() == rotors.len(),
        key_press(rotors).last() == rotors.last().stepped(),
        rotors_wf(key_press(rotors)),
{
    assert forall|j: int| 0 <= j < rotors.len() implies (#[trigger] key_press(rotors)[j]).wf() by {
        assert(rotors[j].wf());
    }
}

/// Key presses keep a machine well formed and leave its reflector and
/// plugboard as they are.
pub proof fn lemma_after_wf(m: MachineView, n: nat)
    requires
        m.wf(),
    ensures
        m.after(n).wf(),
        m.after(n).reflector == m.reflector,
        m.after(n).plugboard == m.plugboard,
    decreases n,
{
    if n > 0 {
        lemma_after_wf(m, (n - 1) as nat);
        lemma_key_press(m.after((n - 1) as nat).rotors);
    }
}

/// With the rotors as they stand, the substitution stays inside the
/// alphabet, undoes itself, and gives no symbol for itself.
pub proof fn lemma_substitute_involution(m: MachineView, c: char)
    requires
        m.wf(),
        is_symbol(c),
    ensures
        is_symbol(m.substitute(c)),
        m.substitute(m.substitute(c)) == c,
        m.substitute(c) != c,
{
    let a = plug(m.plugboard, c);
    lemma_plug_involution(m.plugboard, c);
    let b = forward_pass(m.rotors, a);
    lemma_passes_round_trip(m.rotors, a);
    let d = m.reflector.reflect(b);
    lemma_reflector_involution(m.reflector, b);
    let e = reverse_pass(m.rotors, d);
    lemma_passes_round_trip(m.rotors, d);
    let f = plug(m.plugboard, e);
    lemma_plug_involution(m.plugboard, e);
    assert(f == m.substitute(c));
    assert(plug(m.plugboard, f) == e);
    assert(forward_pass(m.rotors, e) == d);
    lemma_reflector_involution(m.reflector, d);
    assert(m.reflector.reflect(d) == b);
    assert(reverse_pass(m.rotors, b) == a);
    assert(plug(m.plugboard, a) == c);
    if f == c {
        assert(e == a);
        assert(forward_pass(m.rotors, e) == b);
        assert(d == b);
    }
}

/// A machine that encrypts a text over the alphabet, and a second machine
/// set up in the same way that encrypts the result, give back the text.
pub proof fn lemma_machine_reversible(m: MachineView, plaintext: Seq<char>)
    requires
        m.wf(),
        all_symbols(plaintext),
    ensures
        m.cipher(plaintext).len() == plaintext.len(),
        all_symbols(m.cipher(plaintext)),
        m.cipher(m.cipher(plaintext)) == plaintext,
{
    let ciphertext = m.cipher(plaintext);
    assert forall|i: int| 0 <= i < plaintext.len() implies is_symbol(#[trigger] ciphertext[i])
        && m.cipher_at(ciphertext, i) == plaintext[i] by {
        lemma_after_wf(m, (i + 1) as nat);
        lemma_substitute_involution(m.after((i + 1) as nat), plaintext[i]);
    }
    assert(m.cipher(ciphertext) =~= plaintext);
}

/// Encrypting a text over the alphabet succeeds, and encrypting the result
/// on a machine set up in the same way succeeds too and gives back the
/// text. Both machines end in the same state.
pub proof fn lemma_round_trip_outcome(
    m: MachineView,
    plaintext: Seq<char>,
    first: Result<String, EncodingError>,
    after_first: MachineView,
    second: Result<String, EncodingError>,
    after_second: MachineView,
)
    requires
        m.wf(),
        all_symbols(plaintext),
        encryption_outcome(m, plaintext, first, after_first),
        first.is_ok() ==> encryption_outcome(m, first.unwrap()@, second, after_second),
    ensures
        first.is_ok(),
        second.is_ok(),
        second.unwrap()@ == plaintext,
        after_second == after_first,
{
    lemma_first_invalid(plaintext);
    lemma_machine_reversible(m, plaintext);
    lemma_first_invalid(m.cipher(plaintext));
}

/// What `first_invalid` finds: every character before it is a symbol, and
/// the character at it, if there is one, is not.
pub proof fn lemma_first_invalid(text: Seq<char>)
    ensures
        0 <= first_invalid(text) <= text.len(),
        all_symbols(text.take(first_invalid(text))),
        first_invalid(text) < text.len() ==> !is_symbol(text[first_invalid(text)]),
        first_invalid(text) == text.len() <==> all_symbols(text),
    decreases text.len(),
{
    if text.len() > 0 && is_symbol(text[0]) {
        let rest = text.drop_first();
        lemma_first_invalid(rest);
        let k = first_invalid(rest);
        assert forall|i: int| 0 <= i < k + 1 implies is_symbol(#[trigger] text.take(k + 1)[i]) by {
            if i > 0 {
                assert(text.take(k + 1)[i] == rest.take(k)[i - 1]);
            }
        }
        if k < rest.len() {
            assert(text[k + 1] == rest[k]);
        }
        if all_symbols(text) {
            assert forall|i: int| 0 <= i < rest.len() implies is_symbol(#[trigger] rest[i]) by {
                assert(rest[i] == text[i + 1]);
            }
        }
        if k == rest.len() {
            assert(text.take(k + 1) =~= text);
        }
    } else {
        assert(text.take(0).len() == 0);
    }
}

/// The cipher machine: an assembly of rotors, a reflector and a plugboard.
/// Only the rotors' positions change while it runs.
pub struct EnigmaMachine {
    rotors: Vec<Rotor>,
    reflector: Reflector,
    plugboard: Plugboard,
}

impl View for EnigmaMachine {
    type V = MachineView;

    closed spec fn view(&self) -> MachineView {
        MachineView {
            rotors: rotor_views(self.rotors@),
            reflector: self.reflector@,
            plugboard: self.plugboard@,
        }
    }
}

impl EnigmaMachine {
    /// The assembly is not empty and every part is well formed.
    pub open spec fn wf(&self) -> bool {
        self@.wf()
    }

    /// Assembles a machine. The rotors are given in assembly order: the
    /// signal enters the first one first, and the last one steps on every
    /// key press.
    pub fn new(rotors: Vec<Rotor>, reflector: Reflector, plugboard: Plugboard) -> (m: Self)
        requires
            rotors.len() > 0,
            forall|i: int| 0 <= i < rotors.len() ==> (#[trigger] rotors[i]).wf(),
            reflector.wf(),
            plugboard.wf(),
        ensures
            m.wf(),
            m@ == (MachineView {
                rotors: rotor_views(rotors@),
                reflector: reflector@,
                plugboard: plugboard@,
            }),
    {
        EnigmaMachine { rotors, reflector, plugboard }
    }

    /// The symbols that the rotors show, in assembly order.
    pub fn positions(&self) -> (shown: Vec<char>)
        ensures
            shown@ == Seq::new(self@.rotors.len(), |i: int| self@.rotors[i].position),
    {
        let n = self.rotors.len();
        let mut shown: Vec<char> = Vec::new();
        let mut i: usize = 0;
        while i < n
            invariant
                n == self.rotors.len(),
                i <= n,
                shown.len() == i,
                forall|j: int| 0 <= j < i ==> #[trigger] shown[j] == self@.rotors[j].position,
            decreases n - i,
        {
            shown.push(self.rotors[i].position());
            i += 1;
        }
        assert(shown@ =~= Seq::new(self@.rotors.len(), |i: int| self@.rotors[i].position));
        shown
    }

    /// Substitutes one character with the rotors as they stand. `None`
    /// reports a character outside the alphabet.
    pub fn encrypt(&self, input: char) -> (r: Option<char>)
        requires
            self.wf(),
        ensures
            r == (if is_symbol(input) {
                Some(self@.substitute(input))
            } else {
                None
            }),
    {
        if !('A' <= input && input <= 'Z') {
            return None;
        }
        let ghost views = self@.rotors;
        let n = self.rotors.len();
        let mut current = self.plugboard.pass_through(input);
        proof {
            lemma_plug_involution(self@.plugboard, input);
            assert(views.take(0) =~= Seq::<RotorView>::empty());
        }
        let mut i: usize = 0;
        while i < n
            invariant
                self.wf(),
                views == self@.rotors,
                n == self.rotors.len(),
                n == views.len(),
                i <= n,
                is_symbol(current),
                current == forward_pass(views.take(i as int), plug(self@.plugboard, input)),
            decreases n - i,
        {
            proof {
                let upto = views.take(i + 1);
                assert(upto.drop_last() =~= views.take(i as int));
                assert(upto.last() == views[i as int]);
                assert(views[i as int].wf());
                lemma_rotor_round_trip(views[i as int], current);
            }
            match self.rotors[i].pass_through_forward(current) {
                Some(next) => {
                    current = next;
                },
                None => {
                    return None;
                },
            }
            i += 1;
        }
        proof {
            assert(views.take(n as int) =~= views);
            lemma_reflector_involution(self@.reflector, current);
        }
        let mid_char = match self.reflector.encrypt(current) {
            Some(reflected) => reflected,
            None => {
                return None;
            },
        };
        let ghost reflected = mid_char;
        current = mid_char;
        let mut k: usize = n;
        while k > 0
            invariant
                self.wf(),
                views == self@.rotors,
                n == self.rotors.len(),
                n == views.len(),
                k <= n,
                is_symbol(current),
                reverse_pass(views.take(k as int), current) == reverse_pass(views, reflected),
            decreases k,
        {
            proof {
                let upto = views.take(k as int);
                assert(upto.drop_last() =~= views.take(k - 1));
                assert(upto.last() == views[k - 1]);
                assert(views[k - 1].wf());
                lemma_rotor_round_trip(views[k - 1], current);
            }
            k -= 1;
            match self.rotors[k].pass_through_reverse(current) {
                Some(next) => {
                    current = next;
                },
                None => {
                    return None;
                },
            }
        }
        proof {
            assert(views.take(0) =~= Seq::<RotorView>::empty());
        }
        Some(self.plugboard.pass_through(current))
    }

    /// One key press: steps the last rotor, and then each rotor to the left
    /// for as long as the rotor just stepped has reached its notch.
    pub fn advance_rotors(&mut self)
        requires
            old(self).wf(),
        ensures
            final(self).wf(),
            final(self)@ == old(self)@.advance(),
    {
        let ghost start = self@.rotors;
        let n = self.rotors.len();
        let mut i: usize = n;
        let mut should_advance_next = true;
        proof {
            lemma_cascade_is_key_press(start);
        }
        while should_advance_next && i > 0
            invariant
                n == self.rotors.len(),
                n == start.len(),
                i <= n,
                rotors_wf(self@.rotors),
                self@.reflector == old(self)@.reflector,
                self@.plugboard == old(self)@.plugboard,
                cascade(start, n - 1) == (if should_advance_next {
                    cascade(self@.rotors, i - 1)
                } else {
                    self@.rotors
                }),
            decreases i,
        {
            i -= 1;
            let ghost before = self@.rotors;
            assert(before[i as int].wf());
            should_advance_next = self.rotors[i].turn();
            proof {
                assert(self@.rotors =~= before.update(i as int, before[i as int].stepped()));
                assert forall|j: int| 0 <= j < n implies (#[trigger] self@.rotors[j]).wf() by {
                    if j != i {
                        assert(self@.rotors[j] == before[j]);
                    }
                }
            }
        }
    }

    /// Encrypts a message. Each character first presses a key, and is then
    /// substituted if it is a symbol. The first character that is not a
    /// symbol ends the call with an error that names it, after its key
    /// press.
    pub fn encrypt_message(&mut self, message: &str) -> (result: Result<String, EncodingError>)
        requires
            old(self).wf(),
        ensures
            final(self).wf(),
            encryption_outcome(old(self)@, message@, result, final(self)@),
    {
        let ghost start = self@;
        let mut out = String::new();
        proof {
            lemma_first_invalid(message@);
        }
        for ch in it: message.chars()
            invariant
                start.wf(),
                start == old(self)@,
                it.seq() == message@,
                self.wf(),
                self@ == start.after(it.index() as nat),
                it.index() <= first_invalid(message@) <= message@.len(),
                all_symbols(message@.take(first_invalid(message@))),
                first_invalid(message@) < message@.len() ==> !is_symbol(
                    message@[first_invalid(message@)],
                ),
                first_invalid(message@) == message@.len() <==> all_symbols(message@),
                out@ == start.cipher(message@).take(it.index() as int),
        {
            let ghost i = it.index() as int;
            self.advance_rotors();
            match self.encrypt(ch) {
                Some(c) => {
                    proof {
                        assert(is_symbol(message@[i]));
                        assert(c == start.cipher_at(message@, i));
                        assert(start.cipher(message@).take(i + 1) =~= start.cipher(message@).take(
                            i,
                        ).push(c));
                    }
                    out.push(c);
                },
                None => {
                    proof {
                        if i < first_invalid(message@) {
                            assert(message@.take(first_invalid(message@))[i] == message@[i]);
                        }
                    }
                    return Err(EncodingError { character: ch });
                },
            }
        }
        proof {
            assert(start.cipher(message@).take(message@.len() as int) =~= start.cipher(message@));
        }
        Ok(out)
    }
}

} // verus!
