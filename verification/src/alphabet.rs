//! The alphabet: the 26 symbols `A` to `Z` in their canonical order, with
//! lookup from symbol to position and back.

use vstd::prelude::*;

verus! {

/// Number of symbols in the alphabet.
pub const ALPHABET_LEN: usize = 26;

/// Whether `c` is one of the 26 symbols `A` to `Z`.
pub open spec fn is_symbol(c: char) -> bool {
    'A' <= c && c <= 'Z'
}

/// Position of a symbol in the canonical ordering: `A` is 0, `Z` is 25.
pub open spec fn symbol_index(c: char) -> int {
    c as int - 'A' as int
}

/// The symbol at position `i` of the canonical ordering.
pub open spec fn symbol_at(i: int) -> char {
    (i + 'A' as int) as char
}

/// The symbol that follows `c` in the canonical ordering, `A` following `Z`.
pub open spec fn next_symbol(c: char) -> char {
    symbol_at((symbol_index(c) + 1) % 26)
}

/// The alphabet in its canonical order.
pub open spec fn alphabet() -> Seq<char> {
    Seq::new(26, |i: int| symbol_at(i))
}

/// Whether every element of `text` is a symbol.
pub open spec fn all_symbols(text: Seq<char>) -> bool {
    forall|i: int| 0 <= i < text.len() ==> is_symbol(#[trigger] text[i])
}

/// Index lookup: the position of `c` in the alphabet, if it is a symbol.
pub fn position_of(c: char) -> (r: Option<usize>)
    ensures
        r == (if is_symbol(c) {
            Some(symbol_index(c) as usize)
        } else {
            None
        }),
{
    if 'A' <= c && c <= 'Z' {
        Some((c as u32 - 'A' as u32) as usize)
    } else {
        None
    }
}

/// Reverse lookup: the symbol at position `i` of the alphabet.
pub fn symbol_of(i: usize) -> (c: char)
    requires
        i < ALPHABET_LEN,
    ensures
        c == symbol_at(i as int),
        is_symbol(c),
{
    ((i as u8) + 65u8) as char
}

/// Index lookup and reverse lookup undo each other.
pub proof fn lemma_index_round_trip(c: char, i: int)
    ensures
        is_symbol(c) ==> 0 <= symbol_index(c) < 26 && symbol_at(symbol_index(c)) == c,
        0 <= i < 26 ==> is_symbol(symbol_at(i)) && symbol_index(symbol_at(i)) == i,
{
}

} // verus!
