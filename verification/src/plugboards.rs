//! Plugboards drawn at random.

use crate::alphabet::{alphabet, is_symbol, symbol_at, symbol_of};
use crate::error::ConfigurationError;
use crate::plugboard::{holds, valid_pairs, Plugboard, MAX_PAIRS};
use rand::rngs::ThreadRng;
use rand::seq::SliceRandom;
use rand::Rng;
use vstd::prelude::*;

verus! {

/// `rand::rngs::ThreadRng`, the generator of random numbers that `rand`
/// keeps for each thread. Nothing inside it is visible here.
#[verifier::external_type_specification]
#[verifier::external_body]
pub struct ExThreadRng(ThreadRng);

/// `rand::thread_rng` hands out a handle to the current thread's
/// generator. Nothing is claimed of the handle. The call takes no argument;
/// it panics only where the operating system's random source fails when
/// the generator is first seeded.
pub assume_specification[ rand::thread_rng ]() -> ThreadRng
;

/// Assumed of `rand::seq::SliceRandom::shuffle`, not proved: it reorders
/// the slice in place by swapping elements, so that afterwards the slice
/// holds the same elements, each as often as before. Nothing is claimed of
/// their order. No slice makes the call panic; like every draw from the
/// thread's generator it panics where the operating system's random source
/// fails when the generator is seeded anew, which no argument decides.
#[verifier::external_body]
fn shuffle(chars: &mut Vec<char>, rng: &mut ThreadRng)
    ensures
        final(chars)@.to_multiset() == old(chars)@.to_multiset(),
{
    chars.shuffle(rng);
}

/// Assumed of `rand::Rng::gen_range` on the inclusive range from `low` to
/// `high`, not proved: the number drawn lies in the range. The call panics
/// on an empty range, which `requires` rules out. Nothing is claimed of
/// which number is drawn. Like every draw from the thread's generator the
/// call panics where the operating system's random source fails when the
/// generator is seeded anew, which no argument decides.
#[verifier::external_body]
fn gen_range(rng: &mut ThreadRng, low: usize, high: usize) -> (n: usize)
    requires
        low <= high,
    ensures
        low <= n <= high,
{
    rng.gen_range(low..=high)
}

/// An arrangement holds every symbol once, in any order.
pub open spec fn is_arrangement(chars: Seq<char>) -> bool {
    chars.to_multiset() == alphabet().to_multiset()
}

/// The first `count` pairs of neighbours in `chars`: the first with the
/// second character, the third with the fourth, and so on, as far as whole
/// pairs go.
pub open spec fn paired(chars: Seq<char>, count: nat) -> Seq<(char, char)> {
    Seq::new(
        if count <= chars.len() / 2 {
            count
        } else {
            chars.len() / 2
        },
        |i: int| (chars[2 * i], chars[2 * i + 1]),
    )
}

/// An arrangement has 26 symbols, all different.
pub proof fn lemma_arrangement(chars: Seq<char>)
    requires
        is_arrangement(chars),
    ensures
        chars.len() == 26,
        chars.no_duplicates(),
        forall|i: int| 0 <= i < chars.len() ==> is_symbol(#[trigger] chars[i]),
{
    let letters = alphabet();
    assert(letters.no_duplicates());
    assert(chars.to_multiset() == letters.to_multiset());
    letters.to_multiset_ensures();
    chars.to_multiset_ensures();
    letters.lemma_multiset_has_no_duplicates();
    chars.lemma_multiset_has_no_duplicates_conv();
    assert forall|i: int| 0 <= i < chars.len() implies is_symbol(#[trigger] chars[i]) by {
        assert(chars.contains(chars[i]));
        assert(chars.to_multiset().count(chars[i]) > 0);
        assert(letters.to_multiset().count(chars[i]) > 0);
        assert(letters.contains(chars[i]));
        let k = choose|k: int| 0 <= k < letters.len() && letters[k] == chars[i];
        assert(is_symbol(letters[k]));
    }
}

/// Pairs of neighbours taken from an arrangement make a valid plugboard,
/// and the two ends of each pair differ.
pub proof fn lemma_paired_valid(chars: Seq<char>, count: nat)
    requires
        is_arrangement(chars),
    ensures
        valid_pairs(paired(chars, count)),
        forall|i: int|
            0 <= i < paired(chars, count).len() ==> (#[trigger] paired(chars, count)[i]).0
                != paired(chars, count)[i].1,
{
    lemma_arrangement(chars);
    let pairs = paired(chars, count);
    assert forall|i: int| 0 <= i < pairs.len() implies is_symbol((#[trigger] pairs[i]).0)
        && is_symbol(pairs[i].1) && pairs[i].0 != pairs[i].1 by {
        assert(is_symbol(chars[2 * i]) && is_symbol(chars[2 * i + 1]));
    }
    assert forall|i: int, j: int| 0 <= i < j < pairs.len() implies !holds(
        #[trigger] pairs[i],
        (#[trigger] pairs[j]).0,
    ) && !holds(pairs[i], pairs[j].1) by {
        assert(chars[2 * i] != chars[2 * j]);
        assert(chars[2 * i] != chars[2 * j + 1]);
        assert(chars[2 * i + 1] != chars[2 * j]);
        assert(chars[2 * i + 1] != chars[2 * j + 1]);
    }
}

/// Takes the first `num_mappings` pairs of neighbours from `chars`.
pub fn mappings_from(chars: &Vec<char>, num_mappings: usize) -> (pairs: Vec<(char, char)>)
    ensures
        pairs@ == paired(chars@, num_mappings as nat),
{
    let whole = chars.len() / 2;
    let count = if num_mappings <= whole {
        num_mappings
    } else {
        whole
    };
    let mut pairs: Vec<(char, char)> = Vec::new();
    let mut i: usize = 0;
    while i < count
        invariant
            count <= chars.len() / 2,
            i <= count,
            pairs.len() == i,
            forall|j: int| 0 <= j < i ==> #[trigger] pairs[j] == (chars[2 * j], chars[2 * j + 1]),
        decreases count - i,
    {
        pairs.push((chars[2 * i], chars[2 * i + 1]));
        i += 1;
    }
    assert(pairs@ =~= paired(chars@, num_mappings as nat));
    pairs
}

/// The 26 symbols in their canonical order.
pub fn alphabet_chars() -> (chars: Vec<char>)
    ensures
        chars@ == alphabet(),
{
    let mut chars: Vec<char> = Vec::new();
    let mut i: usize = 0;
    while i < 26
        invariant
            i <= 26,
            chars.len() == i,
            forall|j: int| 0 <= j < i ==> #[trigger] chars[j] == symbol_at(j),
        decreases 26 - i,
    {
        chars.push(symbol_of(i));
        i += 1;
    }
    assert(chars@ =~= alphabet());
    chars
}

/// Whether `board` is one that a draw can give: the first pairs of
/// neighbours, at least 1 and at most 13 of them, of some arrangement of
/// the alphabet.
pub open spec fn drawn_board(board: Seq<(char, char)>) -> bool {
    exists|arrangement: Seq<char>, count: nat|
        is_arrangement(arrangement) && 1 <= count <= MAX_PAIRS && board == #[trigger] paired(
            arrangement,
            count,
        )
}

/// A plugboard drawn from the generator `rng`: the symbols are shuffled, a
/// number of pairs between 1 and 13 is drawn, and that many pairs of
/// neighbours are plugged. Whatever is drawn, the plugboard is valid.
pub fn generate_random_mappings_with(rng: &mut ThreadRng) -> (r: Result<
    Plugboard,
    ConfigurationError,
>)
    ensures
        r.is_ok(),
        r.unwrap().wf(),
        drawn_board(r.unwrap()@),
{
    let mut chars = alphabet_chars();
    shuffle(&mut chars, rng);
    let num_mappings = gen_range(rng, 1, MAX_PAIRS);
    let plugboard_map = mappings_from(&chars, num_mappings);
    proof {
        lemma_paired_valid(chars@, num_mappings as nat);
    }
    Plugboard::new(plugboard_map)
}

/// A plugboard drawn from the current thread's generator.
pub fn generate_random_mappings() -> (r: Result<Plugboard, ConfigurationError>)
    ensures
        r.is_ok(),
        r.unwrap().wf(),
        drawn_board(r.unwrap()@),
{
    let mut rng = rand::thread_rng();
    generate_random_mappings_with(&mut rng)
}

} // verus!
