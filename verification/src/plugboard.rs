//! The plugboard: pairs of symbols that are swapped on the way in and on
//! the way out.

use crate::alphabet::{alphabet, is_symbol, symbol_index};
use crate::error::ConfigurationError;
use vstd::prelude::*;
use vstd::set_lib::lemma_len_subset;

verus! {

/// Whether `c` is one of the two ends of `pair`.
pub open spec fn holds(pair: (char, char), c: char) -> bool {
    pair.0 == c || pair.1 == c
}

/// The end of `pair` that is not `c`, for a pair that holds `c`.
pub open spec fn other_end(pair: (char, char), c: char) -> char {
    if pair.0 == c {
        pair.1
    } else {
        pair.0
    }
}

/// The most pairs that a plugboard can hold: half the alphabet.
pub const MAX_PAIRS: usize = 13;

/// Every end of every pair is a symbol, and no symbol stands in two pairs.
pub open spec fn disjoint_pairs(pairs: Seq<(char, char)>) -> bool {
    &&& forall|i: int|
        0 <= i < pairs.len() ==> is_symbol((#[trigger] pairs[i]).0) && is_symbol(pairs[i].1)
    &&& forall|i: int, j: int|
        0 <= i < j < pairs.len() ==> !holds(#[trigger] pairs[i], (#[trigger] pairs[j]).0)
            && !holds(pairs[i], pairs[j].1)
}

/// A valid plugboard: at most 13 pairs, every end of every pair a symbol,
/// and no symbol in two pairs.
pub open spec fn valid_pairs(pairs: Seq<(char, char)>) -> bool {
    &&& pairs.len() <= MAX_PAIRS
    &&& disjoint_pairs(pairs)
}

/// Whether some pair holds `c`.
pub open spec fn plugged(pairs: Seq<(char, char)>, c: char) -> bool {
    exists|i: int| 0 <= i < pairs.len() && holds(#[trigger] pairs[i], c)
}

/// The plugboard's substitution: the other end of the pair that holds `c`,
/// and `c` itself where no pair holds it.
pub open spec fn plug(pairs: Seq<(char, char)>, c: char) -> char {
    if plugged(pairs, c) {
        let i = choose|i: int| 0 <= i < pairs.len() && holds(#[trigger] pairs[i], c);
        other_end(pairs[i], c)
    } else {
        c
    }
}

/// On a valid plugboard the substitution swaps the two ends of each pair.
pub proof fn lemma_plug_pair(pairs: Seq<(char, char)>, i: int)
    requires
        valid_pairs(pairs),
        0 <= i < pairs.len(),
    ensures
        plug(pairs, pairs[i].0) == pairs[i].1,
        plug(pairs, pairs[i].1) == pairs[i].0,
{
    assert(holds(pairs[i], pairs[i].0));
    assert(holds(pairs[i], pairs[i].1));
    let a = choose|k: int| 0 <= k < pairs.len() && holds(#[trigger] pairs[k], pairs[i].0);
    let b = choose|k: int| 0 <= k < pairs.len() && holds(#[trigger] pairs[k], pairs[i].1);
    assert(a == i) by {
        if a < i {
            assert(!holds(pairs[a], pairs[i].0));
        } else if i < a {
            assert(!holds(pairs[i], pairs[a].0) && !holds(pairs[i], pairs[a].1));
        }
    }
    assert(b == i) by {
        if b < i {
            assert(!holds(pairs[b], pairs[i].1));
        } else if i < b {
            assert(!holds(pairs[i], pairs[b].0) && !holds(pairs[i], pairs[b].1));
        }
    }
}

/// On a valid plugboard the substitution stays inside the alphabet and
/// undoes itself.
pub proof fn lemma_plug_involution(pairs: Seq<(char, char)>, c: char)
    requires
        valid_pairs(pairs),
        is_symbol(c),
    ensures
        is_symbol(plug(pairs, c)),
        plug(pairs, plug(pairs, c)) == c,
{
    if plugged(pairs, c) {
        let i = choose|i: int| 0 <= i < pairs.len() && holds(#[trigger] pairs[i], c);
        lemma_plug_pair(pairs, i);
    } else {
        assert(plug(pairs, c) == c);
    }
}

/// The ends of all pairs in one row: the two ends of the first pair, then
/// those of the second, and so on.
pub open spec fn ends(pairs: Seq<(char, char)>) -> Seq<char> {
    Seq::new(
        2 * pairs.len(),
        |k: int|
            if k % 2 == 0 {
                pairs[k / 2].0
            } else {
                pairs[k / 2].1
            },
    )
}

/// Pairs that share no symbol and that each join two different symbols
/// number at most 13, since there are only 26 symbols to plug: for such
/// pairs the bound on a valid plugboard asks nothing more.
pub proof fn lemma_at_most_13_pairs(pairs: Seq<(char, char)>)
    requires
        disjoint_pairs(pairs),
        forall|i: int| 0 <= i < pairs.len() ==> (#[trigger] pairs[i]).0 != pairs[i].1,
    ensures
        pairs.len() <= 13,
        valid_pairs(pairs),
{
    let row = ends(pairs);
    let letters = alphabet();
    assert forall|x: int, y: int| 0 <= x < row.len() && 0 <= y < row.len() && x != y implies row[x]
        != row[y] by {
        let i = x / 2;
        let j = y / 2;
        if i < j {
            assert(!holds(pairs[i], pairs[j].0) && !holds(pairs[i], pairs[j].1));
        } else if j < i {
            assert(!holds(pairs[j], pairs[i].0) && !holds(pairs[j], pairs[i].1));
        } else {
            assert(pairs[i].0 != pairs[i].1);
        }
    }
    assert(row.no_duplicates());
    assert(letters.no_duplicates());
    row.unique_seq_to_set();
    letters.unique_seq_to_set();
    vstd::seq_lib::seq_to_set_is_finite(letters);
    assert forall|c: char| row.to_set().contains(c) implies letters.to_set().contains(c) by {
        let k = choose|k: int| 0 <= k < row.len() && row[k] == c;
        assert(is_symbol(pairs[k / 2].0) && is_symbol(pairs[k / 2].1));
        assert(letters[symbol_index(c)] == c);
    }
    lemma_len_subset(row.to_set(), letters.to_set());
}

/// The plugboard: pairs of symbols that are swapped before the signal
/// enters the rotors and after it leaves them.
pub struct Plugboard {
    plugboard_map: Vec<(char, char)>,
}

impl View for Plugboard {
    type V = Seq<(char, char)>;

    closed spec fn view(&self) -> Seq<(char, char)> {
        self.plugboard_map@
    }
}

impl Plugboard {
    /// The pairs are a valid plugboard.
    pub open spec fn wf(&self) -> bool {
        valid_pairs(self@)
    }

    /// Builds a plugboard from its pairs. Fails if there are more than 13
    /// pairs, if an end of a pair is not a symbol, or if a symbol stands in
    /// two pairs.
    pub fn new(plugboard_map: Vec<(char, char)>) -> (r: Result<Plugboard, ConfigurationError>)
        ensures
            match r {
                Ok(p) => valid_pairs(plugboard_map@) && p.wf() && p@ == plugboard_map@,
                Err(e) => !valid_pairs(plugboard_map@) && e == ConfigurationError::InvalidPlugboard,
            },
    {
        if !Self::is_valid_mapping(plugboard_map.as_slice()) {
            return Err(ConfigurationError::InvalidPlugboard);
        }
        Ok(Plugboard { plugboard_map })
    }

    /// Whether the pairs are a valid plugboard.
    pub fn is_valid_mapping(plugboard_map: &[(char, char)]) -> (ok: bool)
        ensures
            ok == valid_pairs(plugboard_map@),
    {
        let mut chars_seen: Vec<bool> = Vec::new();
        let mut k: usize = 0;
        while k < 26
            invariant
                k <= 26,
                chars_seen.len() == k,
                forall|s: int| 0 <= s < k ==> !chars_seen@[s],
            decreases 26 - k,
        {
            chars_seen.push(false);
            k += 1;
        }
        let ghost mut owner: Seq<int> = Seq::new(26, |s: int| 0int);
        let n = plugboard_map.len();
        if n > MAX_PAIRS {
            return false;
        }
        let mut i: usize = 0;
        while i < n
            invariant
                n == plugboard_map.len(),
                i <= n,
                chars_seen.len() == 26,
                owner.len() == 26,
                n <= MAX_PAIRS,
                disjoint_pairs(plugboard_map@.take(i as int)),
                forall|j: int|
                    0 <= j < i ==> is_symbol((#[trigger] plugboard_map@[j]).0) && is_symbol(
                        plugboard_map@[j].1,
                    ) && chars_seen@[symbol_index(plugboard_map@[j].0)] && chars_seen@[symbol_index(
                        plugboard_map@[j].1,
                    )],
                forall|s: int|
                    0 <= s < 26 && #[trigger] chars_seen@[s] ==> 0 <= owner[s] < i && (symbol_index(
                        plugboard_map@[owner[s]].0,
                    ) == s || symbol_index(plugboard_map@[owner[s]].1) == s),
            decreases n - i,
        {
            let (a, b) = plugboard_map[i];
            if !('A' <= a && a <= 'Z') || !('A' <= b && b <= 'Z') {
                return false;
            }
            let ia: usize = (a as u32 - 'A' as u32) as usize;
            let ib: usize = (b as u32 - 'A' as u32) as usize;
            if chars_seen[ia] {
                proof {
                    let j = owner[ia as int];
                    assert(holds(plugboard_map@[j], plugboard_map@[i as int].0));
                }
                return false;
            }
            if chars_seen[ib] {
                proof {
                    let j = owner[ib as int];
                    assert(holds(plugboard_map@[j], plugboard_map@[i as int].1));
                }
                return false;
            }
            proof {
                let next = plugboard_map@.take(i + 1);
                assert forall|x: int, y: int| 0 <= x < y < next.len() implies !holds(
                    #[trigger] next[x],
                    (#[trigger] next[y]).0,
                ) && !holds(next[x], next[y].1) by {
                    if y < i {
                        assert(plugboard_map@.take(i as int)[x] == next[x]);
                        assert(plugboard_map@.take(i as int)[y] == next[y]);
                    } else {
                        assert(chars_seen@[symbol_index(plugboard_map@[x].0)]);
                        assert(chars_seen@[symbol_index(plugboard_map@[x].1)]);
                    }
                }
                assert forall|x: int| 0 <= x < next.len() implies is_symbol((#[trigger] next[x]).0)
                    && is_symbol(next[x].1) by {
                    if x < i {
                        assert(plugboard_map@.take(i as int)[x] == next[x]);
                    }
                }
                owner = owner.update(ia as int, i as int).update(ib as int, i as int);
            }
            chars_seen.set(ia, true);
            chars_seen.set(ib, true);
            i += 1;
        }
        assert(plugboard_map@.take(n as int) =~= plugboard_map@);
        true
    }

    /// The pairs of the plugboard, in the order in which they were given.
    pub fn pairs(&self) -> (pairs: &Vec<(char, char)>)
        ensures
            pairs@ == self@,
    {
        &self.plugboard_map
    }

    /// Substitutes `c`: a plugged symbol by the other end of its pair, any
    /// other character by itself.
    pub fn pass_through(&self, c: char) -> (r: char)
        requires
            self.wf(),
        ensures
            r == plug(self@, c),
    {
        let n = self.plugboard_map.len();
        let mut i: usize = 0;
        while i < n
            invariant
                self.wf(),
                n == self.plugboard_map.len(),
                i <= n,
                forall|j: int| 0 <= j < i ==> !holds(#[trigger] self@[j], c),
            decreases n - i,
        {
            let (a, b) = self.plugboard_map[i];
            if a == c || b == c {
                proof {
                    assert(holds(self@[i as int], c));
                    lemma_plug_pair(self@, i as int);
                }
                return if a == c {
                    b
                } else {
                    a
                };
            }
            i += 1;
        }
        c
    }
}

} // verus!
