//! Reading which cards a player wants to discard.

use vstd::prelude::*;

use crate::text::{digit_char, digit_str};

verus! {

/// A card position a player can name: `1` to `5`.
pub open spec fn is_position(c: char) -> bool {
    '1' <= c && c <= '5'
}

/// The positions named in `s`, each once, in the order they first appear;
/// every other character is ignored.
pub open spec fn discard_positions(s: Seq<char>) -> Seq<char>
    decreases s.len(),
{
    if s.len() == 0 {
        Seq::empty()
    } else {
        let prev = discard_positions(s.drop_last());
        if is_position(s.last()) && !prev.contains(s.last()) {
            prev.push(s.last())
        } else {
            prev
        }
    }
}

/// The card positions named in `input`, e.g. `"1 3 5"` or `"3,1,3"`, as a
/// string of distinct digits from `1` to `5`.
pub fn normalize_discard_input(input: &str) -> (r: String)
    ensures
        r@ == discard_positions(input@),
{
    let n = input.unicode_len();
    let mut seen: Vec<bool> = vec![false, false, false, false, false];
    let mut result = String::new();
    let mut i: usize = 0;
    while i < n
        invariant
            n == input@.len(),
            i <= n,
            seen@.len() == 5,
            result@ == discard_positions(input@.take(i as int)),
            forall|d: int| 0 <= d < 5 ==> #[trigger] seen@[d] == result@.contains(digit_char((d + 1) as nat)),
        decreases n - i,
    {
        let c = input.get_char(i);
        let ghost prev = result@;
        proof {
            assert(input@.take(i + 1).drop_last() =~= input@.take(i as int));
            assert(input@.take(i + 1).last() == c);
        }
        if '1' <= c && c <= '5' {
            let d: usize = (c as u32 - '1' as u32) as usize;
            assert(digit_char((d + 1) as nat) == c);
            if !seen[d] {
                seen.set(d, true);
                result.append(digit_str((d + 1) as u64));
                proof {
                    assert(result@ =~= prev.push(c));
                    assert forall|e: int| 0 <= e < 5 implies #[trigger] seen@[e] == result@.contains(digit_char((e + 1) as nat)) by {
                        if e != d {
                            assert(digit_char((e + 1) as nat) != c);
                            if prev.contains(digit_char((e + 1) as nat)) {
                                let k = choose|k: int| 0 <= k < prev.len() && prev[k] == digit_char((e + 1) as nat);
                                assert(result@[k] == prev[k]);
                            }
                            if result@.contains(digit_char((e + 1) as nat)) {
                                let k = choose|k: int| 0 <= k < result@.len() && result@[k] == digit_char((e + 1) as nat);
                                assert(prev[k] == digit_char((e + 1) as nat));
                            }
                        } else {
                            assert(result@[prev.len() as int] == c);
                        }
                    }
                }
            }
        }
        i = i + 1;
    }
    assert(input@.take(n as int) =~= input@);
    result
}

/// What a discard reads is a run of distinct card positions, `1` to `5`.
pub proof fn lemma_discard_positions_distinct(s: Seq<char>)
    ensures
        discard_positions(s).no_duplicates(),
        forall|i: int| 0 <= i < discard_positions(s).len() ==> is_position(#[trigger] discard_positions(s)[i]),
        discard_positions(s).len() <= 5,
    decreases s.len(),
{
    if s.len() > 0 {
        lemma_discard_positions_distinct(s.drop_last());
    }
    let r = discard_positions(s);
    assert(r.to_set().subset_of(Set::new(|c: char| is_position(c))));
    assert(Set::new(|c: char| is_position(c)) =~= set!['1', '2', '3', '4', '5']);
    vstd::set_lib::lemma_len_subset(r.to_set(), set!['1', '2', '3', '4', '5']);
    r.unique_seq_to_set();
}

} // verus!
