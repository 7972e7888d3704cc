//! A Texas Hold'em hand evaluator: the value of the best five of seven cards.
//!
//! A hand's value is a sequence of bytes compared lexicographically: the
//! first byte is the category (8 straight flush down to 0 high card) and the
//! rest break ties within the category.

use vstd::prelude::*;
use vstd::relations::{sorted_by, total_ordering};
use vstd::multiset::Multiset;

use crate::sql::structs::{Card, Suite, card_index, suite_index};
use crate::utils::card_ascii::{black_card, black_cards, red_card, red_cards, suite_emoji, suites};

verus! {

broadcast use {vstd::seq_lib::group_to_multiset_ensures, vstd::multiset::group_multiset_axioms};

/// A card rank: 2 to 14, the ace counting 14.
pub type Rank = u8;
/// A suit: 0 diamonds, 1 hearts, 2 clubs, 3 spades.
pub type Suit = u8;

/// A card as the evaluator sees it.
#[derive(Debug, Clone, Copy, PartialEq, Eq, Structural)]
pub struct EvalCard {
    pub rank: Rank,
    pub suit: Suit,
}

impl EvalCard {
    pub fn new(rank: Rank, suit: Suit) -> (r: Self)
        ensures
            r.rank == rank,
            r.suit == suit,
    {
        EvalCard { rank, suit }
    }
}

/// The evaluator's rank of a face: the ace is high (14), the others count their pips.
pub open spec fn face_rank(c: Card) -> u8 {
    if card_index(c) == 0 { 14 } else { (card_index(c) + 1) as u8 }
}

/// Converts a face and suit to an evaluator card, the ace high.
pub fn card_tuple_to_eval(card: (Card, Suite)) -> (r: EvalCard)
    ensures
        r.rank == face_rank(card.0),
        r.suit as nat == suite_index(card.1),
{
    let rank: u8 = match card.0 {
        Card::ONE => 14,
        Card::TWO => 2,
        Card::THREE => 3,
        Card::FOUR => 4,
        Card::FIVE => 5,
        Card::SIX => 6,
        Card::SEVEN => 7,
        Card::EIGHT => 8,
        Card::NINE => 9,
        Card::TEN => 10,
        Card::JACK => 11,
        Card::QUEEN => 12,
        Card::KING => 13,
    };
    EvalCard::new(rank, card.1.index())
}

// ---------------------------------------------------------------------------
// Lexicographic order on hand values
// ---------------------------------------------------------------------------

/// `a` is greater than `b` in the lexicographic order of byte sequences
/// (the order of `Vec<u8>`): at the first difference `a` is larger, or `b`
/// is a proper prefix of `a`.
pub open spec fn lex_gt(a: Seq<u8>, b: Seq<u8>) -> bool
    decreases a.len(),
{
    if a.len() == 0 {
        false
    } else if b.len() == 0 {
        true
    } else if a[0] != b[0] {
        a[0] > b[0]
    } else {
        lex_gt(a.drop_first(), b.drop_first())
    }
}

/// Beating is transitive.
pub proof fn lemma_lex_gt_transitive(a: Seq<u8>, b: Seq<u8>, c: Seq<u8>)
    requires
        lex_gt(a, b),
        lex_gt(b, c),
    ensures
        lex_gt(a, c),
    decreases a.len(),
{
    if a.len() > 0 && b.len() > 0 && c.len() > 0 && a[0] == b[0] && b[0] == c[0] {
        lemma_lex_gt_transitive(a.drop_first(), b.drop_first(), c.drop_first());
    }
}

/// No value beats itself.
pub proof fn lemma_lex_gt_irreflexive(a: Seq<u8>)
    ensures
        !lex_gt(a, a),
    decreases a.len(),
{
    if a.len() > 0 {
        lemma_lex_gt_irreflexive(a.drop_first());
    }
}

/// Decides `lex_gt` on two byte vectors.
pub fn lex_greater(a: &Vec<u8>, b: &Vec<u8>) -> (r: bool)
    ensures
        r == lex_gt(a@, b@),
{
    let mut i: usize = 0;
    assert(a@.skip(0) =~= a@);
    assert(b@.skip(0) =~= b@);
    while i < a.len() && i < b.len()
        invariant
            i <= a.len(),
            i <= b.len(),
            forall|j: int| 0 <= j < i ==> a@[j] == b@[j],
            lex_gt(a@, b@) == lex_gt(a@.skip(i as int), b@.skip(i as int)),
        decreases a.len() - i,
    {
        if a[i] != b[i] {
            return a[i] > b[i];
        }
        assert(a@.skip(i as int).drop_first() =~= a@.skip(i + 1));
        assert(b@.skip(i as int).drop_first() =~= b@.skip(i + 1));
        i = i + 1;
    }
    a.len() > i
}

// ---------------------------------------------------------------------------
// Five-card hands
// ---------------------------------------------------------------------------

/// Descending order on ranks.
pub open spec fn desc() -> spec_fn(u8, u8) -> bool {
    |x: u8, y: u8| x >= y
}

/// The ranks of a hand, in the hand's order.
pub open spec fn rank_seq(cards: Seq<EvalCard>) -> Seq<u8> {
    cards.map_values(|c: EvalCard| c.rank)
}

/// The ranks of a hand from highest to lowest.
pub open spec fn sorted_ranks(cards: Seq<EvalCard>) -> Seq<u8> {
    rank_seq(cards).sort_by(desc())
}

/// All cards of the hand share one suit.
pub open spec fn is_flush(cards: Seq<EvalCard>) -> bool {
    forall|i: int| 0 <= i < cards.len() ==> #[trigger] cards[i].suit == cards[0].suit
}

/// The ranks `t` down to `t - 4` all occur in `s`.
pub open spec fn has_run_from(s: Seq<u8>, t: u8) -> bool {
    &&& t >= 4
    &&& s.contains(t)
    &&& s.contains((t - 1) as u8)
    &&& s.contains((t - 2) as u8)
    &&& s.contains((t - 3) as u8)
    &&& s.contains((t - 4) as u8)
}

/// The ranks of the wheel, A-5-4-3-2, all occur in `s`.
pub open spec fn has_wheel(s: Seq<u8>) -> bool {
    s.contains(14) && s.contains(5) && s.contains(4) && s.contains(3) && s.contains(2)
}

/// The top rank of the highest straight among the ranks `s`: the highest
/// `t` such that `t` down to `t - 4` all occur; failing that, the five for
/// the wheel A-5-4-3-2; none when there is no straight.
pub open spec fn straight_top(s: Seq<u8>) -> Option<u8> {
    if exists|t: u8| #[trigger] has_run_from(s, t) {
        Some(choose|t: u8| #[trigger] has_run_from(s, t) && forall|t2: u8| #[trigger] has_run_from(s, t2) ==> t2 <= t)
    } else if has_wheel(s) {
        Some(5)
    } else {
        None
    }
}

/// The value of five ranks sorted from highest to lowest, the hand being a
/// flush or not. Equal ranks stand next to each other, so which neighbours
/// are equal tells the groups apart: a four of a kind is a run of four, a
/// full house a run of three and a run of two, and so on. Each category lists
/// its groups by size and then by rank, the kickers last from high to low.
/// Five equal ranks form no category of their own.
pub open spec fn rank_of_sorted(s: Seq<u8>, flush: bool) -> Seq<u8> {
    let e0 = s[0] == s[1];
    let e1 = s[1] == s[2];
    let e2 = s[2] == s[3];
    let e3 = s[3] == s[4];
    let straight = straight_top(s);
    if flush && straight is Some {
        seq![8, straight->0]
    } else if e0 && e1 && e2 && !e3 {
        seq![7, s[0], s[4]]
    } else if !e0 && e1 && e2 && e3 {
        seq![7, s[1], s[0]]
    } else if e0 && e1 && !e2 && e3 {
        seq![6, s[0], s[3]]
    } else if e0 && !e1 && e2 && e3 {
        seq![6, s[2], s[0]]
    } else if flush {
        seq![5, s[0], s[1], s[2], s[3], s[4]]
    } else if straight is Some {
        seq![4, straight->0]
    } else if e0 && e1 && !e2 && !e3 {
        seq![3, s[0], s[3], s[4]]
    } else if !e0 && e1 && e2 && !e3 {
        seq![3, s[1], s[0], s[4]]
    } else if !e0 && !e1 && e2 && e3 {
        seq![3, s[2], s[0], s[1]]
    } else if e0 && !e1 && e2 && !e3 {
        seq![2, s[0], s[2], s[4]]
    } else if e0 && !e1 && !e2 && e3 {
        seq![2, s[0], s[3], s[2]]
    } else if !e0 && e1 && !e2 && e3 {
        seq![2, s[1], s[3], s[0]]
    } else if e0 && !e1 && !e2 && !e3 {
        seq![1, s[0], s[2], s[3], s[4]]
    } else if !e0 && e1 && !e2 && !e3 {
        seq![1, s[1], s[0], s[3], s[4]]
    } else if !e0 && !e1 && e2 && !e3 {
        seq![1, s[2], s[0], s[1], s[4]]
    } else if !e0 && !e1 && !e2 && e3 {
        seq![1, s[3], s[0], s[1], s[2]]
    } else {
        seq![0, s[0], s[1], s[2], s[3], s[4]]
    }
}

/// The value of a five-card hand.
pub open spec fn five_rank(cards: Seq<EvalCard>) -> Seq<u8> {
    rank_of_sorted(sorted_ranks(cards), is_flush(cards))
}

/// Ranks sorted high to low are sorted by a total order.
pub proof fn lemma_desc_total()
    ensures
        total_ordering(desc()),
{
    assert(vstd::relations::reflexive(desc()));
    assert(vstd::relations::antisymmetric(desc()));
    assert(vstd::relations::transitive(desc()));
    assert(vstd::relations::strongly_connected(desc()));
}

/// A descending arrangement of the same ranks is the sorted one.
pub proof fn lemma_sorted_is_sort_by(out: Seq<u8>, input: Seq<u8>)
    requires
        sorted_by(out, desc()),
        out.to_multiset() == input.to_multiset(),
    ensures
        out == input.sort_by(desc()),
{
    lemma_desc_total();
    input.lemma_sort_by_ensures(desc());
    vstd::seq_lib::lemma_sorted_unique(out, input.sort_by(desc()), desc());
}

/// Sorts ranks from highest to lowest.
pub fn sort_desc(v: &Vec<u8>) -> (r: Vec<u8>)
    ensures
        r@ == v@.sort_by(desc()),
        r@.len() == v@.len(),
{
    let mut work = v.clone();
    let mut out: Vec<u8> = Vec::new();
    while work.len() > 0
        invariant
            sorted_by(out@, desc()),
            forall|i: int, j: int| 0 <= i < out@.len() && 0 <= j < work@.len() ==> out@[i] >= work@[j],
            out@.to_multiset().add(work@.to_multiset()) == v@.to_multiset(),
            out@.len() + work@.len() == v@.len(),
        decreases work.len(),
    {
        let mut m: usize = 0;
        let mut k: usize = 1;
        while k < work.len()
            invariant
                0 < work.len(),
                m < work.len(),
                1 <= k <= work.len(),
                forall|j: int| 0 <= j < k ==> work@[m as int] >= work@[j],
            decreases work.len() - k,
        {
            if work[k] > work[m] {
                m = k;
            }
            k = k + 1;
        }
        let ghost old_work = work@;
        let ghost old_out = out@;
        let x = work.remove(m);
        out.push(x);
        proof {
            assert(work@ == old_work.remove(m as int));
            assert(work@.to_multiset() =~= old_work.to_multiset().remove(x));
            assert(out@.to_multiset() =~= old_out.to_multiset().insert(x));
            assert(old_work.to_multiset().count(x) > 0);
            assert(out@.to_multiset().add(work@.to_multiset()) =~= v@.to_multiset());
            assert forall|i: int, j: int| 0 <= i < out@.len() && 0 <= j < work@.len()
                implies out@[i] >= work@[j] by {
                if j < m {
                    assert(work@[j] == old_work[j]);
                } else {
                    assert(work@[j] == old_work[j + 1]);
                }
            }
        }
    }
    proof {
        assert(work@.to_multiset() =~= Multiset::empty());
        assert(out@.to_multiset() =~= v@.to_multiset());
        lemma_sorted_is_sort_by(out@, v@);
    }
    out
}


/// Ranks that never rise: sorted from highest to lowest, ties allowed.
pub open spec fn non_increasing(s: Seq<u8>) -> bool {
    forall|i: int, j: int| 0 <= i < j < s.len() ==> #[trigger] s[i] >= #[trigger] s[j]
}

/// Ranks that always fall: sorted from highest to lowest, no ties.
pub open spec fn strictly_decreasing(s: Seq<u8>) -> bool {
    forall|i: int, j: int| 0 <= i < j < s.len() ==> #[trigger] s[i] > #[trigger] s[j]
}

/// A run `t` down to `t - 4` among distinct ranks sorted from highest to
/// lowest stands in five neighbouring places.
proof fn lemma_run_is_window(u: Seq<u8>, t: u8)
    requires
        strictly_decreasing(u),
        has_run_from(u, t),
    ensures
        exists|p: int| 0 <= p && p + 4 < u.len() && #[trigger] u[p] == t && u[p + 4] == t - 4,
{
    let p = choose|p: int| 0 <= p < u.len() && u[p] == t;
    let q1 = choose|q: int| 0 <= q < u.len() && u[q] == (t - 1) as u8;
    let q2 = choose|q: int| 0 <= q < u.len() && u[q] == (t - 2) as u8;
    let q3 = choose|q: int| 0 <= q < u.len() && u[q] == (t - 3) as u8;
    let q4 = choose|q: int| 0 <= q < u.len() && u[q] == (t - 4) as u8;
    if q1 <= p { assert(u[q1] >= u[p]); }
    assert(q1 >= p + 1);
    if q1 > p + 1 { assert(u[p + 1] > u[q1]); }
    assert(u[p] > u[p + 1]);
    assert(u[p + 1] == t - 1);
    if q2 <= p + 1 { assert(u[q2] >= u[p + 1]); }
    if q2 > p + 2 { assert(u[p + 2] > u[q2]); }
    assert(u[p + 1] > u[p + 2]);
    assert(u[p + 2] == t - 2);
    if q3 <= p + 2 { assert(u[q3] >= u[p + 2]); }
    if q3 > p + 3 { assert(u[p + 3] > u[q3]); }
    assert(u[p + 2] > u[p + 3]);
    assert(u[p + 3] == t - 3);
    if q4 <= p + 3 { assert(u[q4] >= u[p + 3]); }
    if q4 > p + 4 { assert(u[p + 4] > u[q4]); }
    assert(u[p + 3] > u[p + 4]);
    assert(u[p + 4] == t - 4);
}

/// The distinct ranks of ranks sorted from highest to lowest, in the same order.
fn distinct_desc(s: &Vec<u8>) -> (u: Vec<u8>)
    requires
        non_increasing(s@),
    ensures
        strictly_decreasing(u@),
        forall|x: u8| #[trigger] u@.contains(x) <==> s@.contains(x),
{
    let mut u: Vec<u8> = Vec::new();
    let mut i: usize = 0;
    while i < s.len()
        invariant
            i <= s@.len(),
            non_increasing(s@),
            strictly_decreasing(u@),
            forall|x: u8| #[trigger] u@.contains(x) <==> s@.take(i as int).contains(x),
            i > 0 ==> u@.len() > 0 && u@.last() == s@[i - 1],
            i == 0 ==> u@.len() == 0,
        decreases s.len() - i,
    {
        let x = s[i];
        let ghost before = u@;
        let ghost s0 = s@.take(i as int);
        let ghost s1 = s@.take(i + 1);
        assert(s1 =~= s0.push(x));
        if u.len() == 0 || u[u.len() - 1] != x {
            u.push(x);
            proof {
                if i > 0 {
                    assert(s@[i - 1] >= s@[i as int]);
                }
                assert forall|a: int, b: int| 0 <= a < b < u@.len() implies #[trigger] u@[a] > #[trigger] u@[b] by {
                    if b == u@.len() - 1 && a < before.len() - 1 {
                        assert(before[a] > before[before.len() - 1]);
                    }
                }
                assert forall|y: u8| #[trigger] u@.contains(y) <==> s1.contains(y) by {
                    if u@.contains(y) && y != x {
                        let k = choose|k: int| 0 <= k < u@.len() && u@[k] == y;
                        assert(before[k] == y);
                    }
                    if before.contains(y) {
                        let k = choose|k: int| 0 <= k < before.len() && before[k] == y;
                        assert(u@[k] == y);
                    }
                    if s0.contains(y) {
                        let k = choose|k: int| 0 <= k < i && s0[k] == y;
                        assert(s1[k] == y);
                    }
                    if s1.contains(y) && y != x {
                        let k = choose|k: int| 0 <= k < i + 1 && s1[k] == y;
                        assert(s0[k] == y);
                    }
                    assert(u@[u@.len() - 1] == x);
                    assert(s1[i as int] == x);
                }
            }
        } else {
            proof {
                assert forall|y: u8| #[trigger] u@.contains(y) <==> s1.contains(y) by {
                    if s0.contains(y) {
                        let k = choose|k: int| 0 <= k < i && s0[k] == y;
                        assert(s1[k] == y);
                    }
                    if s1.contains(y) && y != x {
                        let k = choose|k: int| 0 <= k < i + 1 && s1[k] == y;
                        assert(s0[k] == y);
                    }
                    assert(u@[u@.len() - 1] == x);
                }
            }
        }
        i = i + 1;
    }
    assert(s@.take(s@.len() as int) =~= s@);
    u
}

/// Whether `x` is among the ranks `v`.
fn has_rank(v: &Vec<u8>, x: u8) -> (r: bool)
    ensures
        r == v@.contains(x),
{
    let mut i: usize = 0;
    while i < v.len()
        invariant
            i <= v@.len(),
            forall|j: int| 0 <= j < i ==> v@[j] != x,
        decreases v.len() - i,
    {
        if v[i] == x {
            return true;
        }
        i = i + 1;
    }
    false
}

/// A window of five distinct ranks spanning four, with no such window
/// higher up, is the top of the highest straight.
proof fn lemma_first_window_is_top(u: Seq<u8>, s: Seq<u8>, w: int)
    requires
        strictly_decreasing(u),
        forall|x: u8| #[trigger] u.contains(x) <==> s.contains(x),
        0 <= w && w + 4 < u.len(),
        u[w] - u[w + 4] == 4,
        forall|p: int| 0 <= p < w && p + 4 < u.len() ==> #[trigger] u[p] - u[p + 4] != 4,
    ensures
        straight_top(s) == Some(u[w]),
{
    let top = u[w];
    assert(u[w] > u[w + 1] && u[w + 1] > u[w + 2] && u[w + 2] > u[w + 3] && u[w + 3] > u[w + 4]);
    assert(u[w + 1] == top - 1 && u[w + 2] == top - 2 && u[w + 3] == top - 3 && u[w + 4] == top - 4);
    assert(u.contains(u[w]) && u.contains(u[w + 1]) && u.contains(u[w + 2]) && u.contains(u[w + 3]) && u.contains(u[w + 4]));
    assert(has_run_from(s, top));
    assert forall|t2: u8| #[trigger] has_run_from(s, t2) implies t2 <= top by {
        assert(has_run_from(u, t2));
        lemma_run_is_window(u, t2);
        let p = choose|p: int| 0 <= p && p + 4 < u.len() && #[trigger] u[p] == t2 && u[p + 4] == t2 - 4;
        if p < w {
            assert(u[p] - u[p + 4] != 4);
        } else if p > w {
            assert(u[w] > u[p]);
        }
    }
    let c = choose|t: u8| #[trigger] has_run_from(s, t) && forall|t2: u8| #[trigger] has_run_from(s, t2) ==> t2 <= t;
    assert(has_run_from(s, c) && c <= top && top <= c);
}

/// Distinct ranks with no window of five spanning four hold no straight
/// other than, perhaps, the wheel.
proof fn lemma_no_window_no_run(u: Seq<u8>, s: Seq<u8>)
    requires
        strictly_decreasing(u),
        forall|x: u8| #[trigger] u.contains(x) <==> s.contains(x),
        forall|p: int| 0 <= p && p + 4 < u.len() ==> #[trigger] u[p] - u[p + 4] != 4,
    ensures
        straight_top(s) == (if has_wheel(u) { Some(5u8) } else { None }),
{
    assert forall|t: u8| !#[trigger] has_run_from(s, t) by {
        if has_run_from(s, t) {
            assert(has_run_from(u, t));
            lemma_run_is_window(u, t);
            let p = choose|p: int| 0 <= p && p + 4 < u.len() && #[trigger] u[p] == t && u[p + 4] == t - 4;
            assert(u[p] - u[p + 4] != 4);
        }
    }
    assert(has_wheel(s) == has_wheel(u));
}

/// The top rank of the highest straight among ranks sorted from highest to
/// lowest.
pub fn check_straight(s: &Vec<u8>) -> (r: Option<u8>)
    requires
        non_increasing(s@),
    ensures
        r == straight_top(s@),
{
    let u = distinct_desc(s);
    let n = u.len();
    let mut w: usize = 0;
    while n >= 5 && w <= n - 5
        invariant
            n == u@.len(),
            strictly_decreasing(u@),
            forall|x: u8| #[trigger] u@.contains(x) <==> s@.contains(x),
            forall|p: int| 0 <= p < w && p + 4 < n ==> #[trigger] u@[p] - u@[p + 4] != 4,
        decreases n - w,
    {
        assert(u@[w as int] > u@[w + 4]);
        if u[w] - u[w + 4] == 4 {
            proof {
                lemma_first_window_is_top(u@, s@, w as int);
            }
            return Some(u[w]);
        }
        w = w + 1;
    }
    proof {
        lemma_no_window_no_run(u@, s@);
    }
    if has_rank(&u, 14) && has_rank(&u, 2) && has_rank(&u, 3) && has_rank(&u, 4) && has_rank(&u, 5) {
        return Some(5);
    }
    None
}

/// Five ranks listed in a given order hold the same ranks as the same five
/// listed in any other order (shown for the orders the hand values use).
proof fn lemma_five_ms(a: u8, b: u8, c: u8, d: u8, e: u8)
    ensures
        seq![a, b, c, d, e].to_multiset()
            == Multiset::<u8>::empty().insert(a).insert(b).insert(c).insert(d).insert(e),
{
    broadcast use vstd::seq_lib::to_multiset_build;
    assert(seq![a, b, c, d, e] =~= Seq::<u8>::empty().push(a).push(b).push(c).push(d).push(e));
    assert(Seq::<u8>::empty().to_multiset() =~= Multiset::<u8>::empty());
}

/// Ranks that hold at most four distinct ranks make no straight.
proof fn lemma_four_ranks_no_straight(s: Seq<u8>, a: u8, b: u8, c: u8, d: u8)
    requires
        forall|v: u8| s.contains(v) ==> v == a || v == b || v == c || v == d,
    ensures
        straight_top(s) is None,
{
    assert forall|t: u8| !#[trigger] has_run_from(s, t) by {
        if has_run_from(s, t) {
            assert(s.contains(t) && s.contains((t - 1) as u8) && s.contains((t - 2) as u8));
            assert(s.contains((t - 3) as u8) && s.contains((t - 4) as u8));
        }
    }
    if has_wheel(s) {
        assert(s.contains(14) && s.contains(5) && s.contains(4) && s.contains(3) && s.contains(2));
    }
}

/// The five cards `x` hold the ranks `listed`; `cand`, holding the same
/// ranks from highest to lowest, is then the hand's sorted ranks.
#[verifier::spinoff_prover]
proof fn lemma_sorted_ranks_are(x: Seq<EvalCard>, listed: Seq<u8>, cand: Seq<u8>)
    requires
        listed.len() == 5,
        cand.len() == 5,
        rank_seq(x).to_multiset() == listed.to_multiset(),
        Multiset::<u8>::empty().insert(cand[0]).insert(cand[1]).insert(cand[2]).insert(cand[3]).insert(cand[4])
            =~= Multiset::<u8>::empty().insert(listed[0]).insert(listed[1]).insert(listed[2]).insert(listed[3]).insert(listed[4]),
        cand[0] >= cand[1] && cand[1] >= cand[2] && cand[2] >= cand[3] && cand[3] >= cand[4],
    ensures
        sorted_ranks(x) == cand,
        forall|v: u8| cand.contains(v) ==> v == cand[0] || v == cand[1] || v == cand[2] || v == cand[3] || v == cand[4],
{
    lemma_five_ms(listed[0], listed[1], listed[2], listed[3], listed[4]);
    lemma_five_ms(cand[0], cand[1], cand[2], cand[3], cand[4]);
    assert(listed =~= seq![listed[0], listed[1], listed[2], listed[3], listed[4]]);
    assert(cand =~= seq![cand[0], cand[1], cand[2], cand[3], cand[4]]);
    assert(sorted_by(cand, desc()));
    lemma_sorted_is_sort_by(cand, rank_seq(x));
    assert forall|v: u8| cand.contains(v) implies v == cand[0] || v == cand[1] || v == cand[2] || v == cand[3]
        || v == cand[4] by {
        let i = choose|i: int| 0 <= i < 5 && cand[i] == v;
    }
}

/// Five cards that are not all of one suit and hold two pairs and an odd
/// card (ranks `hi`, `hi`, `lo`, `lo` and `kicker`, `hi` above `lo`) are
/// valued as two pair: the higher pair's rank, the lower pair's rank, then
/// the odd card's rank.
#[verifier::spinoff_prover]
pub proof fn lemma_two_pair_value(x: Seq<EvalCard>, hi: u8, lo: u8, kicker: u8)
    requires
        x.len() == 5,
        hi > lo,
        kicker != hi,
        kicker != lo,
        rank_seq(x).to_multiset() == seq![hi, hi, lo, lo, kicker].to_multiset(),
        !is_flush(x),
    ensures
        five_rank(x) == seq![2u8, hi, lo, kicker],
{
    let cand = if kicker > hi {
        seq![kicker, hi, hi, lo, lo]
    } else if kicker > lo {
        seq![hi, hi, kicker, lo, lo]
    } else {
        seq![hi, hi, lo, lo, kicker]
    };
    lemma_five_ms(hi, hi, lo, lo, kicker);
    lemma_five_ms(cand[0], cand[1], cand[2], cand[3], cand[4]);
    assert(cand =~= seq![cand[0], cand[1], cand[2], cand[3], cand[4]]);
    assert(cand.to_multiset() =~= seq![hi, hi, lo, lo, kicker].to_multiset());
    assert(sorted_by(cand, desc()));
    lemma_sorted_is_sort_by(cand, rank_seq(x));
    assert(sorted_ranks(x) == cand);
    assert forall|v: u8| cand.contains(v) implies v == hi || v == lo || v == kicker by {
        let i = choose|i: int| 0 <= i < 5 && cand[i] == v;
    }
    lemma_four_ranks_no_straight(cand, hi, lo, kicker, kicker);
}

/// Five cards holding four of one rank `q` and one card `k` are valued as
/// four of a kind: the four's rank, then the odd card's rank.
#[verifier::spinoff_prover]
pub proof fn lemma_four_of_a_kind_value(x: Seq<EvalCard>, q: u8, k: u8)
    requires
        x.len() == 5,
        q != k,
        rank_seq(x).to_multiset() == seq![q, q, q, q, k].to_multiset(),
    ensures
        five_rank(x) == seq![7u8, q, k],
{
    let cand = if k > q { seq![k, q, q, q, q] } else { seq![q, q, q, q, k] };
    lemma_sorted_ranks_are(x, seq![q, q, q, q, k], cand);
    lemma_four_ranks_no_straight(cand, q, k, k, k);
}

/// Five cards holding three of one rank `t` and two of another rank `p`
/// are valued as a full house: the three's rank, then the pair's rank.
#[verifier::spinoff_prover]
pub proof fn lemma_full_house_value(x: Seq<EvalCard>, t: u8, p: u8)
    requires
        x.len() == 5,
        t != p,
        rank_seq(x).to_multiset() == seq![t, t, t, p, p].to_multiset(),
    ensures
        five_rank(x) == seq![6u8, t, p],
{
    let cand = if t > p { seq![t, t, t, p, p] } else { seq![p, p, t, t, t] };
    lemma_sorted_ranks_are(x, seq![t, t, t, p, p], cand);
    lemma_four_ranks_no_straight(cand, t, p, p, p);
}

/// Five cards not all of one suit holding three of one rank `t` and two
/// other ranks `a` above `b` are valued as three of a kind: the three's
/// rank, then `a`, then `b`.
#[verifier::spinoff_prover]
pub proof fn lemma_three_of_a_kind_value(x: Seq<EvalCard>, t: u8, a: u8, b: u8)
    requires
        x.len() == 5,
        a > b,
        t != a,
        t != b,
        rank_seq(x).to_multiset() == seq![t, t, t, a, b].to_multiset(),
        !is_flush(x),
    ensures
        five_rank(x) == seq![3u8, t, a, b],
{
    let cand = if t > a { seq![t, t, t, a, b] } else if t > b { seq![a, t, t, t, b] } else { seq![a, b, t, t, t] };
    lemma_sorted_ranks_are(x, seq![t, t, t, a, b], cand);
    lemma_four_ranks_no_straight(cand, t, a, b, b);
}

/// Five cards not all of one suit holding a pair of rank `p` and three
/// other ranks `a` above `b` above `c` are valued as one pair: the pair's
/// rank, then `a`, `b` and `c`.
#[verifier::spinoff_prover]
pub proof fn lemma_one_pair_value(x: Seq<EvalCard>, p: u8, a: u8, b: u8, c: u8)
    requires
        x.len() == 5,
        a > b > c,
        p != a && p != b && p != c,
        rank_seq(x).to_multiset() == seq![p, p, a, b, c].to_multiset(),
        !is_flush(x),
    ensures
        five_rank(x) == seq![1u8, p, a, b, c],
{
    let cand = if p > a {
        seq![p, p, a, b, c]
    } else if p > b {
        seq![a, p, p, b, c]
    } else if p > c {
        seq![a, b, p, p, c]
    } else {
        seq![a, b, c, p, p]
    };
    lemma_sorted_ranks_are(x, seq![p, p, a, b, c], cand);
    lemma_four_ranks_no_straight(cand, p, a, b, c);
}

/// The straight among five different ranks sorted from highest to lowest:
/// five in a row with top `a`, else the wheel with top 5, else none.
#[verifier::spinoff_prover]
#[verifier::rlimit(30)]
proof fn lemma_five_distinct_straight(a: u8, b: u8, c: u8, d: u8, e: u8)
    requires
        a > b > c > d > e,
    ensures
        straight_top(seq![a, b, c, d, e]) == if a - e == 4 {
            Some(a)
        } else if a == 14 && b == 5 && c == 4 && d == 3 && e == 2 {
            Some(5u8)
        } else {
            None
        },
{
    let cand = seq![a, b, c, d, e];
    assert(strictly_decreasing(cand));
    if a - e == 4 {
        lemma_first_window_is_top(cand, cand, 0);
    } else {
        assert forall|p: int| 0 <= p && p + 4 < cand.len() implies #[trigger] cand[p] - cand[p + 4] != 4 by {
            assert(p == 0);
        }
        lemma_no_window_no_run(cand, cand);
        assert forall|v: u8| cand.contains(v) implies v == a || v == b || v == c || v == d || v == e by {
            let i = choose|i: int| 0 <= i < 5 && cand[i] == v;
        }
        if has_wheel(cand) {
            assert(cand.contains(14) && cand.contains(5) && cand.contains(4) && cand.contains(3) && cand.contains(2));
            assert(a == 14 && b == 5 && c == 4 && d == 3 && e == 2);
        }
        if a == 14 && b == 5 && c == 4 && d == 3 && e == 2 {
            assert(cand[0] == 14 && cand[1] == 5 && cand[2] == 4 && cand[3] == 3 && cand[4] == 2);
            assert(has_wheel(cand));
        }
    }
}

/// The value of five different ranks sorted from highest to lowest.
#[verifier::spinoff_prover]
#[verifier::rlimit(40)]
proof fn lemma_rank_of_distinct(a: u8, b: u8, c: u8, d: u8, e: u8, flush: bool)
    requires
        a > b > c > d > e,
    ensures
        ({
            let top: Option<u8> = if a - e == 4 {
                Some(a)
            } else if a == 14 && b == 5 && c == 4 && d == 3 && e == 2 {
                Some(5u8)
            } else {
                None
            };
            rank_of_sorted(seq![a, b, c, d, e], flush) == match (flush, top) {
                (true, Some(h)) => seq![8u8, h],
                (false, Some(h)) => seq![4u8, h],
                (true, None) => seq![5u8, a, b, c, d, e],
                (false, None) => seq![0u8, a, b, c, d, e],
            }
        }),
{
    let cand = seq![a, b, c, d, e];
    lemma_five_distinct_straight(a, b, c, d, e);
    assert(cand[0] == a && cand[1] == b && cand[2] == c && cand[3] == d && cand[4] == e);
    let st = straight_top(cand);
    let e0 = cand[0] == cand[1];
    let e1 = cand[1] == cand[2];
    let e2 = cand[2] == cand[3];
    let e3 = cand[3] == cand[4];
    assert(!e0 && !e1 && !e2 && !e3);
    if flush && st is Some {
        assert(rank_of_sorted(cand, flush) == seq![8u8, st->0]);
    } else if flush {
        assert(rank_of_sorted(cand, flush) == seq![5u8, cand[0], cand[1], cand[2], cand[3], cand[4]]);
    } else if st is Some {
        assert(rank_of_sorted(cand, flush) == seq![4u8, st->0]);
    } else {
        assert(rank_of_sorted(cand, flush) == seq![0u8, cand[0], cand[1], cand[2], cand[3], cand[4]]);
    }
}

/// Five cards of five different ranks `a` above `b` above `c` above `d`
/// above `e`: five ranks in a row (`a - e == 4`, top `a`) or the wheel
/// A-5-4-3-2 (top 5) make a straight; a straight all of one suit is a
/// straight flush `[8, top]`, otherwise a straight `[4, top]`; without a
/// straight, five cards of one suit are a flush `[5, a, b, c, d, e]`, and
/// anything else is high card `[0, a, b, c, d, e]`.
#[verifier::spinoff_prover]
#[verifier::rlimit(30)]
pub proof fn lemma_five_ranks_value(x: Seq<EvalCard>, a: u8, b: u8, c: u8, d: u8, e: u8)
    requires
        x.len() == 5,
        a > b > c > d > e,
        rank_seq(x).to_multiset() == seq![a, b, c, d, e].to_multiset(),
    ensures
        ({
            let top: Option<u8> = if a - e == 4 {
                Some(a)
            } else if a == 14 && b == 5 && c == 4 && d == 3 && e == 2 {
                Some(5u8)
            } else {
                None
            };
            five_rank(x) == match (is_flush(x), top) {
                (true, Some(h)) => seq![8u8, h],
                (false, Some(h)) => seq![4u8, h],
                (true, None) => seq![5u8, a, b, c, d, e],
                (false, None) => seq![0u8, a, b, c, d, e],
            }
        }),
{
    let cand = seq![a, b, c, d, e];
    lemma_sorted_ranks_are(x, cand, cand);
    lemma_rank_of_distinct(a, b, c, d, e, is_flush(x));
}

/// The value of a five-card hand.
fn evaluate_five(cards: &[EvalCard]) -> (r: Vec<u8>)
    requires
        cards@.len() == 5,
    ensures
        r@ == five_rank(cards@),
{
    let mut ranks: Vec<u8> = Vec::new();
    let mut i: usize = 0;
    while i < 5
        invariant
            cards@.len() == 5,
            i <= 5,
            ranks@ == rank_seq(cards@.take(i as int)),
        decreases 5 - i,
    {
        ranks.push(cards[i].rank);
        assert(rank_seq(cards@.take(i + 1)) =~= rank_seq(cards@.take(i as int)).push(cards@[i as int].rank));
        i = i + 1;
    }
    assert(cards@.take(5) =~= cards@);
    let s = sort_desc(&ranks);
    let mut flush = true;
    let mut k: usize = 1;
    while k < 5
        invariant
            cards@.len() == 5,
            1 <= k <= 5,
            flush == (forall|j: int| 0 <= j < k ==> #[trigger] cards@[j].suit == cards@[0].suit),
        decreases 5 - k,
    {
        if cards[k].suit != cards[0].suit {
            flush = false;
        }
        k = k + 1;
    }
    proof {
        lemma_desc_total();
        ranks@.lemma_sort_by_ensures(desc());
        assert forall|a: int, b: int| 0 <= a < b < s@.len() implies #[trigger] s@[a] >= #[trigger] s@[b] by {
            assert(desc()(s@[a], s@[b]));
        }
    }
    let straight = check_straight(&s);
    let e0 = s[0] == s[1];
    let e1 = s[1] == s[2];
    let e2 = s[2] == s[3];
    let e3 = s[3] == s[4];
    let r = if flush && straight.is_some() {
        vec![8, straight.unwrap()]
    } else if e0 && e1 && e2 && !e3 {
        vec![7, s[0], s[4]]
    } else if !e0 && e1 && e2 && e3 {
        vec![7, s[1], s[0]]
    } else if e0 && e1 && !e2 && e3 {
        vec![6, s[0], s[3]]
    } else if e0 && !e1 && e2 && e3 {
        vec![6, s[2], s[0]]
    } else if flush {
        vec![5, s[0], s[1], s[2], s[3], s[4]]
    } else if straight.is_some() {
        vec![4, straight.unwrap()]
    } else if e0 && e1 && !e2 && !e3 {
        vec![3, s[0], s[3], s[4]]
    } else if !e0 && e1 && e2 && !e3 {
        vec![3, s[1], s[0], s[4]]
    } else if !e0 && !e1 && e2 && e3 {
        vec![3, s[2], s[0], s[1]]
    } else if e0 && !e1 && e2 && !e3 {
        vec![2, s[0], s[2], s[4]]
    } else if e0 && !e1 && !e2 && e3 {
        vec![2, s[0], s[3], s[2]]
    } else if !e0 && e1 && !e2 && e3 {
        vec![2, s[1], s[3], s[0]]
    } else if e0 && !e1 && !e2 && !e3 {
        vec![1, s[0], s[2], s[3], s[4]]
    } else if !e0 && e1 && !e2 && !e3 {
        vec![1, s[1], s[0], s[3], s[4]]
    } else if !e0 && !e1 && e2 && !e3 {
        vec![1, s[2], s[0], s[1], s[4]]
    } else if !e0 && !e1 && !e2 && e3 {
        vec![1, s[3], s[0], s[1], s[2]]
    } else {
        vec![0, s[0], s[1], s[2], s[3], s[4]]
    };
    assert(r@ =~= rank_of_sorted(s@, flush));
    r
}


// ---------------------------------------------------------------------------
// Best five of seven
// ---------------------------------------------------------------------------

/// The five cards at positions `i`, `j`, `k`, `l`, `m`.
pub open spec fn pick(cards: Seq<EvalCard>, i: int, j: int, k: int, l: int, m: int) -> Seq<EvalCard> {
    seq![cards[i], cards[j], cards[k], cards[l], cards[m]]
}

/// Five increasing positions below `n`: one way of choosing five of `n` cards.
pub open spec fn is_combo(n: int, i: int, j: int, k: int, l: int, m: int) -> bool {
    0 <= i < j && j < k && k < l && l < m && m < n
}

/// `best` is the value of the best five-card hand among `cards`, or `[0]`
/// when there are fewer than five cards.
pub open spec fn is_best_of(cards: Seq<EvalCard>, best: Seq<u8>) -> bool {
    &&& cards.len() < 5 ==> best == seq![0u8]
    &&& cards.len() >= 5 ==> exists|i: int, j: int, k: int, l: int, m: int|
        is_combo(cards.len() as int, i, j, k, l, m) && best == #[trigger] five_rank(pick(cards, i, j, k, l, m))
    &&& forall|i: int, j: int, k: int, l: int, m: int|
        is_combo(cards.len() as int, i, j, k, l, m) ==> !lex_gt(#[trigger] five_rank(pick(cards, i, j, k, l, m)), best)
}

/// Every five-card value beats the value `[0]` the search starts from.
pub proof fn lemma_five_rank_beats_zero(cards: Seq<EvalCard>)
    ensures
        lex_gt(five_rank(cards), seq![0u8]),
{
    reveal_with_fuel(lex_gt, 2);
    let r = five_rank(cards);
    assert(r.len() >= 2);
    assert(seq![0u8][0] == 0);
    if r[0] == 0 {
        assert(r.drop_first().len() >= 1);
        assert(seq![0u8].drop_first().len() == 0);
    }
}

/// Two byte sequences are equal or one is greater than the other.
pub proof fn lemma_lex_gt_total(a: Seq<u8>, b: Seq<u8>)
    ensures
        a =~= b || lex_gt(a, b) || lex_gt(b, a),
    decreases a.len(),
{
    if a.len() > 0 && b.len() > 0 && a[0] == b[0] {
        lemma_lex_gt_total(a.drop_first(), b.drop_first());
        if a.drop_first() =~= b.drop_first() {
            assert forall|i: int| 0 <= i < a.len() implies a[i] == b[i] by {
                if i > 0 {
                    assert(a[i] == a.drop_first()[i - 1]);
                    assert(b[i] == b.drop_first()[i - 1]);
                }
            }
        }
    }
}

/// The value of the best five-card hand among `cards`, `[0]` when there are
/// fewer than five.
pub open spec fn hand_value(cards: Seq<EvalCard>) -> Seq<u8> {
    choose|b: Seq<u8>| is_best_of(cards, b)
}

/// At most one value is the best of a set of cards.
pub proof fn lemma_best_of_unique(cards: Seq<EvalCard>, b1: Seq<u8>, b2: Seq<u8>)
    requires
        is_best_of(cards, b1),
        is_best_of(cards, b2),
    ensures
        b1 == b2,
{
    if cards.len() >= 5 {
        let n = cards.len() as int;
        let (i, j, k, l, m) = choose|i: int, j: int, k: int, l: int, m: int|
            is_combo(n, i, j, k, l, m) && b1 == #[trigger] five_rank(pick(cards, i, j, k, l, m));
        let (i2, j2, k2, l2, m2) = choose|i: int, j: int, k: int, l: int, m: int|
            is_combo(n, i, j, k, l, m) && b2 == #[trigger] five_rank(pick(cards, i, j, k, l, m));
        assert(!lex_gt(five_rank(pick(cards, i, j, k, l, m)), b2));
        assert(!lex_gt(five_rank(pick(cards, i2, j2, k2, l2, m2)), b1));
        lemma_lex_gt_total(b1, b2);
    }
}

/// Sequences holding the same items, mapped item by item, still hold the same items.
proof fn lemma_map_keeps_multiset<A, B>(a: Seq<A>, b: Seq<A>, f: spec_fn(A) -> B)
    requires
        a.to_multiset() == b.to_multiset(),
    ensures
        a.map_values(f).to_multiset() == b.map_values(f).to_multiset(),
    decreases a.len(),
{
    broadcast use {vstd::seq_lib::to_multiset_build, vstd::seq_lib::to_multiset_remove, vstd::seq_lib::to_multiset_len,
        vstd::seq_lib::to_multiset_contains};
    vstd::seq_lib::to_multiset_len(a);
    vstd::seq_lib::to_multiset_len(b);
    if a.len() == 0 {
        assert(b.len() == 0);
        assert(a.map_values(f) =~= b.map_values(f));
    } else {
        let x = a.last();
        let a2 = a.drop_last();
        assert(a2.push(x) =~= a);
        assert(a.to_multiset() == a2.to_multiset().insert(x));
        assert(b.to_multiset().count(x) > 0);
        assert(b.to_multiset().contains(x));
        assert(b.contains(x));
        let k = choose|k: int| 0 <= k < b.len() && b[k] == x;
        let b2 = b.remove(k);
        assert(b2.to_multiset() == b.to_multiset().remove(x));
        assert(a2.to_multiset() =~= b2.to_multiset());
        lemma_map_keeps_multiset(a2, b2, f);
        let am = a.map_values(f);
        let bm = b.map_values(f);
        assert(a2.map_values(f).push(f(x)) =~= am);
        assert(bm.remove(k) =~= b2.map_values(f));
        assert(bm[k] == f(x));
        assert(bm.remove(k).to_multiset() == bm.to_multiset().remove(f(x)));
        assert(am.to_multiset() == a2.map_values(f).to_multiset().insert(f(x)));
        assert(bm.to_multiset().count(f(x)) > 0) by {
            assert(bm.contains(f(x)));
        }
        assert(am.to_multiset() =~= bm.to_multiset());
    }
}

/// Five cards with the same ranks, counted with repetition, and alike in
/// being a flush or not, have the same value.
proof fn lemma_five_rank_by_contents(x: Seq<EvalCard>, y: Seq<EvalCard>)
    requires
        rank_seq(x).to_multiset() == rank_seq(y).to_multiset(),
        is_flush(x) == is_flush(y),
    ensures
        five_rank(x) == five_rank(y),
{
    lemma_desc_total();
    rank_seq(x).lemma_sort_by_ensures(desc());
    rank_seq(y).lemma_sort_by_ensures(desc());
    vstd::seq_lib::lemma_sorted_unique(sorted_ranks(x), sorted_ranks(y), desc());
}

/// Cards holding the same items are alike in being a flush or not.
proof fn lemma_flush_by_contents(x: Seq<EvalCard>, y: Seq<EvalCard>)
    requires
        x.to_multiset() == y.to_multiset(),
        x.len() > 0,
    ensures
        is_flush(x) == is_flush(y),
{
    broadcast use {vstd::seq_lib::to_multiset_contains, vstd::seq_lib::to_multiset_len};
    vstd::seq_lib::to_multiset_len(x);
    vstd::seq_lib::to_multiset_len(y);
    assert(y.len() == x.len());
    assert forall|a: Seq<EvalCard>, b: Seq<EvalCard>| a.to_multiset() == b.to_multiset() && a.len() > 0 && is_flush(a)
        implies is_flush(b) by {
        vstd::seq_lib::to_multiset_len(a);
        vstd::seq_lib::to_multiset_len(b);
        assert(a.len() == b.len());
        assert(a.to_multiset().count(b[0]) > 0) by {
            assert(b.contains(b[0]));
            assert(b.to_multiset().count(b[0]) > 0);
        }
        assert(a.contains(b[0]));
        let k0 = choose|k: int| 0 <= k < a.len() && a[k] == b[0];
        assert(a[k0].suit == a[0].suit);
        assert forall|i: int| 0 <= i < b.len() implies #[trigger] b[i].suit == b[0].suit by {
            assert(b.contains(b[i]));
            assert(b.to_multiset().count(b[i]) > 0);
            assert(a.contains(b[i]));
            let k = choose|k: int| 0 <= k < a.len() && a[k] == b[i];
            assert(a[k].suit == a[0].suit);
        }
    }
}

/// The cards at positions `d`, in that order.
pub open spec fn at_positions(cards: Seq<EvalCard>, d: Seq<int>) -> Seq<EvalCard> {
    d.map_values(|i: int| cards[i])
}

/// Five distinct positions among `cards`: any five cards with the same
/// ranks as the cards there, and alike with them in being a flush or not,
/// have the value of one of the five-card choices the search looks at.
proof fn lemma_positions_give_a_combo(cards: Seq<EvalCard>, d: Seq<int>, x: Seq<EvalCard>)
    requires
        d.len() == 5,
        d.no_duplicates(),
        forall|t: int| 0 <= t < 5 ==> 0 <= #[trigger] d[t] < cards.len(),
        rank_seq(x).to_multiset() == rank_seq(at_positions(cards, d)).to_multiset(),
        is_flush(x) == is_flush(at_positions(cards, d)),
    ensures
        exists|i: int, j: int, k: int, l: int, m: int|
            is_combo(cards.len() as int, i, j, k, l, m) && #[trigger] five_rank(pick(cards, i, j, k, l, m)) == five_rank(x),
{
    broadcast use {vstd::seq_lib::to_multiset_contains, vstd::seq_lib::to_multiset_len};
    let le = |a: int, b: int| a <= b;
    assert(total_ordering(le)) by {
        assert(vstd::relations::reflexive(le));
        assert(vstd::relations::antisymmetric(le));
        assert(vstd::relations::transitive(le));
        assert(vstd::relations::strongly_connected(le));
    }
    d.lemma_sort_by_ensures(le);
    let c = d.sort_by(le);
    vstd::seq_lib::to_multiset_len(c);
    vstd::seq_lib::to_multiset_len(d);
    assert(c.len() == 5);
    d.lemma_multiset_has_no_duplicates();
    c.lemma_multiset_has_no_duplicates_conv();
    assert forall|t: int| 0 <= t < 5 implies 0 <= #[trigger] c[t] < cards.len() by {
        assert(c.contains(c[t]));
        assert(c.to_multiset().count(c[t]) > 0);
        assert(d.contains(c[t]));
    }
    assert(le(c[0], c[1]) && le(c[1], c[2]) && le(c[2], c[3]) && le(c[3], c[4]));
    assert(c[0] <= c[1] && c[1] <= c[2] && c[2] <= c[3] && c[3] <= c[4]);
    assert(c[0] != c[1] && c[1] != c[2] && c[2] != c[3] && c[3] != c[4]);
    let p = pick(cards, c[0], c[1], c[2], c[3], c[4]);
    assert(p =~= at_positions(cards, c));
    lemma_map_keeps_multiset(c, d, |i: int| cards[i]);
    lemma_map_keeps_multiset(at_positions(cards, c), at_positions(cards, d), |e: EvalCard| e.rank);
    lemma_flush_by_contents(at_positions(cards, c), at_positions(cards, d));
    lemma_five_rank_by_contents(p, x);
    assert(is_combo(cards.len() as int, c[0], c[1], c[2], c[3], c[4]));
}

/// `cards2` holds the cards of `cards` in another order, card `i` of
/// `cards2` being card `perm[i]` of `cards` (`inv` undoing `perm`), with
/// each suit renamed by the one-to-one `rename`.
pub open spec fn reordered_renamed(
    cards: Seq<EvalCard>,
    cards2: Seq<EvalCard>,
    perm: Seq<int>,
    inv: Seq<int>,
    rename: spec_fn(u8) -> u8,
) -> bool {
    &&& cards2.len() == cards.len()
    &&& perm.len() == cards.len()
    &&& inv.len() == cards.len()
    &&& forall|i: int| 0 <= i < cards.len() ==> 0 <= #[trigger] perm[i] < cards.len() && inv[perm[i]] == i
    &&& forall|i: int| 0 <= i < cards.len() ==> 0 <= #[trigger] inv[i] < cards.len() && perm[inv[i]] == i
    &&& forall|a: u8, b: u8| #[trigger] rename(a) == #[trigger] rename(b) ==> a == b
    &&& forall|i: int| 0 <= i < cards.len() ==> #[trigger] cards2[i]
        == (EvalCard { rank: cards[perm[i]].rank, suit: rename(cards[perm[i]].suit) })
}

/// The five-card choice at `i`..`m` from `cards` has the value of some
/// five-card choice from `cards2`.
proof fn lemma_combo_has_partner(
    cards: Seq<EvalCard>,
    cards2: Seq<EvalCard>,
    perm: Seq<int>,
    inv: Seq<int>,
    rename: spec_fn(u8) -> u8,
    i: int, j: int, k: int, l: int, m: int,
)
    requires
        reordered_renamed(cards, cards2, perm, inv, rename),
        is_combo(cards.len() as int, i, j, k, l, m),
    ensures
        exists|i2: int, j2: int, k2: int, l2: int, m2: int| is_combo(cards.len() as int, i2, j2, k2, l2, m2)
            && #[trigger] five_rank(pick(cards2, i2, j2, k2, l2, m2)) == five_rank(pick(cards, i, j, k, l, m)),
{
    let d = seq![inv[i], inv[j], inv[k], inv[l], inv[m]];
    let x = pick(cards, i, j, k, l, m);
    let y = at_positions(cards2, d);
    assert(d.no_duplicates()) by {
        assert(perm[inv[i]] == i && perm[inv[j]] == j && perm[inv[k]] == k && perm[inv[l]] == l && perm[inv[m]] == m);
    }
    assert(forall|t: int| 0 <= t < 5 ==> 0 <= #[trigger] d[t] < cards2.len());
    assert(cards2[inv[i]] == (EvalCard { rank: cards[i].rank, suit: rename(cards[i].suit) }));
    assert(cards2[inv[j]] == (EvalCard { rank: cards[j].rank, suit: rename(cards[j].suit) }));
    assert(cards2[inv[k]] == (EvalCard { rank: cards[k].rank, suit: rename(cards[k].suit) }));
    assert(cards2[inv[l]] == (EvalCard { rank: cards[l].rank, suit: rename(cards[l].suit) }));
    assert(cards2[inv[m]] == (EvalCard { rank: cards[m].rank, suit: rename(cards[m].suit) }));
    assert(rank_seq(x) =~= rank_seq(y));
    assert(is_flush(x) == is_flush(y)) by {
        assert(forall|t: int| 0 <= t < 5 ==> #[trigger] y[t].suit == rename(x[t].suit));
        if is_flush(x) {
            assert forall|t: int| 0 <= t < 5 implies #[trigger] y[t].suit == y[0].suit by {
                assert(x[t].suit == x[0].suit);
            }
        }
        if is_flush(y) {
            assert forall|t: int| 0 <= t < 5 implies #[trigger] x[t].suit == x[0].suit by {
                assert(y[t].suit == y[0].suit);
                assert(rename(x[t].suit) == rename(x[0].suit));
            }
        }
    }
    lemma_positions_give_a_combo(cards2, d, x);
}

/// The five-card choice at `i`..`m` from `cards2` has the value of some
/// five-card choice from `cards`.
proof fn lemma_combo2_has_partner(
    cards: Seq<EvalCard>,
    cards2: Seq<EvalCard>,
    perm: Seq<int>,
    inv: Seq<int>,
    rename: spec_fn(u8) -> u8,
    i: int, j: int, k: int, l: int, m: int,
)
    requires
        reordered_renamed(cards, cards2, perm, inv, rename),
        is_combo(cards.len() as int, i, j, k, l, m),
    ensures
        exists|i2: int, j2: int, k2: int, l2: int, m2: int| is_combo(cards.len() as int, i2, j2, k2, l2, m2)
            && #[trigger] five_rank(pick(cards, i2, j2, k2, l2, m2)) == five_rank(pick(cards2, i, j, k, l, m)),
{
    let d = seq![perm[i], perm[j], perm[k], perm[l], perm[m]];
    let x = pick(cards2, i, j, k, l, m);
    let y = at_positions(cards, d);
    assert(d.no_duplicates()) by {
        assert(inv[perm[i]] == i && inv[perm[j]] == j && inv[perm[k]] == k && inv[perm[l]] == l && inv[perm[m]] == m);
    }
    assert(forall|t: int| 0 <= t < 5 ==> 0 <= #[trigger] d[t] < cards.len());
    assert(cards2[i] == (EvalCard { rank: cards[perm[i]].rank, suit: rename(cards[perm[i]].suit) }));
    assert(cards2[j] == (EvalCard { rank: cards[perm[j]].rank, suit: rename(cards[perm[j]].suit) }));
    assert(cards2[k] == (EvalCard { rank: cards[perm[k]].rank, suit: rename(cards[perm[k]].suit) }));
    assert(cards2[l] == (EvalCard { rank: cards[perm[l]].rank, suit: rename(cards[perm[l]].suit) }));
    assert(cards2[m] == (EvalCard { rank: cards[perm[m]].rank, suit: rename(cards[perm[m]].suit) }));
    assert(rank_seq(x) =~= rank_seq(y));
    assert(is_flush(x) == is_flush(y)) by {
        assert(forall|t: int| 0 <= t < 5 ==> #[trigger] x[t].suit == rename(y[t].suit));
        if is_flush(y) {
            assert forall|t: int| 0 <= t < 5 implies #[trigger] x[t].suit == x[0].suit by {
                assert(y[t].suit == y[0].suit);
            }
        }
        if is_flush(x) {
            assert forall|t: int| 0 <= t < 5 implies #[trigger] y[t].suit == y[0].suit by {
                assert(x[t].suit == x[0].suit);
                assert(rename(y[t].suit) == rename(y[0].suit));
            }
        }
    }
    lemma_positions_give_a_combo(cards, d, x);
}

/// `b` is the best of `cards` exactly when it is the best of `cards2`.
proof fn lemma_best_of_same(
    cards: Seq<EvalCard>,
    cards2: Seq<EvalCard>,
    perm: Seq<int>,
    inv: Seq<int>,
    rename: spec_fn(u8) -> u8,
    b: Seq<u8>,
)
    requires
        reordered_renamed(cards, cards2, perm, inv, rename),
    ensures
        is_best_of(cards, b) <==> is_best_of(cards2, b),
{
    let n = cards.len() as int;
    if n >= 5 {
        if is_best_of(cards, b) {
            let (i, j, k, l, m) = choose|i: int, j: int, k: int, l: int, m: int|
                is_combo(n, i, j, k, l, m) && b == #[trigger] five_rank(pick(cards, i, j, k, l, m));
            lemma_combo_has_partner(cards, cards2, perm, inv, rename, i, j, k, l, m);
            assert forall|i: int, j: int, k: int, l: int, m: int| is_combo(n, i, j, k, l, m)
                implies !lex_gt(#[trigger] five_rank(pick(cards2, i, j, k, l, m)), b) by {
                lemma_combo2_has_partner(cards, cards2, perm, inv, rename, i, j, k, l, m);
                let (i2, j2, k2, l2, m2) = choose|i2: int, j2: int, k2: int, l2: int, m2: int| is_combo(n, i2, j2, k2, l2, m2)
                    && #[trigger] five_rank(pick(cards, i2, j2, k2, l2, m2)) == five_rank(pick(cards2, i, j, k, l, m));
                assert(!lex_gt(five_rank(pick(cards, i2, j2, k2, l2, m2)), b));
            }
        }
        if is_best_of(cards2, b) {
            let (i, j, k, l, m) = choose|i: int, j: int, k: int, l: int, m: int|
                is_combo(n, i, j, k, l, m) && b == #[trigger] five_rank(pick(cards2, i, j, k, l, m));
            lemma_combo2_has_partner(cards, cards2, perm, inv, rename, i, j, k, l, m);
            assert forall|i: int, j: int, k: int, l: int, m: int| is_combo(n, i, j, k, l, m)
                implies !lex_gt(#[trigger] five_rank(pick(cards, i, j, k, l, m)), b) by {
                lemma_combo_has_partner(cards, cards2, perm, inv, rename, i, j, k, l, m);
                let (i2, j2, k2, l2, m2) = choose|i2: int, j2: int, k2: int, l2: int, m2: int| is_combo(n, i2, j2, k2, l2, m2)
                    && #[trigger] five_rank(pick(cards2, i2, j2, k2, l2, m2)) == five_rank(pick(cards, i, j, k, l, m));
                assert(!lex_gt(five_rank(pick(cards2, i2, j2, k2, l2, m2)), b));
            }
        }
    }
}

/// A hand's value does not depend on the order of its cards or on which
/// names its suits carry: reordering the cards and renaming the suits one
/// to one leaves the best value the same. (A best value always exists:
/// `evaluate_seven` returns it for every hand.)
pub proof fn lemma_value_ignores_order_and_suit_names(
    cards: Seq<EvalCard>,
    cards2: Seq<EvalCard>,
    perm: Seq<int>,
    inv: Seq<int>,
    rename: spec_fn(u8) -> u8,
)
    requires
        reordered_renamed(cards, cards2, perm, inv, rename),
    ensures
        forall|b: Seq<u8>| is_best_of(cards, b) <==> #[trigger] is_best_of(cards2, b),
        (exists|b: Seq<u8>| #[trigger] is_best_of(cards, b)) ==> hand_value(cards) == hand_value(cards2),
{
    assert forall|b: Seq<u8>| is_best_of(cards, b) <==> #[trigger] is_best_of(cards2, b) by {
        lemma_best_of_same(cards, cards2, perm, inv, rename, b);
    }
    if exists|b: Seq<u8>| #[trigger] is_best_of(cards, b) {
        let b = choose|b: Seq<u8>| #[trigger] is_best_of(cards, b);
        assert(is_best_of(cards, hand_value(cards)));
        assert(is_best_of(cards2, b));
        assert(is_best_of(cards2, hand_value(cards2)));
        lemma_best_of_unique(cards, b, hand_value(cards));
        lemma_best_of_unique(cards2, b, hand_value(cards2));
    }
}

/// Evaluates every choice of five cards and keeps the best value.
pub fn evaluate_seven(cards: &[EvalCard]) -> (best: Vec<u8>)
    ensures
        is_best_of(cards@, best@),
        best@ == hand_value(cards@),
{
    let n = cards.len();
    let mut best: Vec<u8> = vec![0];
    let ghost mut found = false;
    let ghost mut w: (int, int, int, int, int) = (0, 0, 0, 0, 0);
    let mut i: usize = 0;
    while i < n
        invariant
            n == cards@.len(),
            i <= n,
            !found ==> best@ == seq![0u8],
            found ==> is_combo(n as int, w.0, w.1, w.2, w.3, w.4)
                && best@ == five_rank(pick(cards@, w.0, w.1, w.2, w.3, w.4)),
            found ==> n >= 5,
            forall|a: int, b: int, c: int, d: int, e: int|
                is_combo(n as int, a, b, c, d, e) && a < i
                ==> !lex_gt(#[trigger] five_rank(pick(cards@, a, b, c, d, e)), best@),
        decreases n - i,
    {
        let mut j: usize = i + 1;
        while j < n
            invariant
                n == cards@.len(),
                i < n,
                i < j <= n,
                !found ==> best@ == seq![0u8],
                found ==> is_combo(n as int, w.0, w.1, w.2, w.3, w.4)
                    && best@ == five_rank(pick(cards@, w.0, w.1, w.2, w.3, w.4)),
                found ==> n >= 5,
                forall|a: int, b: int, c: int, d: int, e: int|
                    is_combo(n as int, a, b, c, d, e) && (a < i || (a == i && b < j))
                    ==> !lex_gt(#[trigger] five_rank(pick(cards@, a, b, c, d, e)), best@),
            decreases n - j,
        {
            let mut k: usize = j + 1;
            while k < n
                invariant
                    n == cards@.len(),
                    i < j < n,
                    j < k <= n,
                    !found ==> best@ == seq![0u8],
                    found ==> is_combo(n as int, w.0, w.1, w.2, w.3, w.4)
                        && best@ == five_rank(pick(cards@, w.0, w.1, w.2, w.3, w.4)),
                    found ==> n >= 5,
                    forall|a: int, b: int, c: int, d: int, e: int|
                        is_combo(n as int, a, b, c, d, e)
                        && (a < i || (a == i && b < j) || (a == i && b == j && c < k))
                        ==> !lex_gt(#[trigger] five_rank(pick(cards@, a, b, c, d, e)), best@),
                decreases n - k,
            {
                let mut l: usize = k + 1;
                while l < n
                    invariant
                        n == cards@.len(),
                        i < j < k < n,
                        k < l <= n,
                        !found ==> best@ == seq![0u8],
                        found ==> is_combo(n as int, w.0, w.1, w.2, w.3, w.4)
                            && best@ == five_rank(pick(cards@, w.0, w.1, w.2, w.3, w.4)),
                        found ==> n >= 5,
                        forall|a: int, b: int, c: int, d: int, e: int|
                            is_combo(n as int, a, b, c, d, e)
                            && (a < i || (a == i && b < j) || (a == i && b == j && c < k)
                                || (a == i && b == j && c == k && d < l))
                            ==> !lex_gt(#[trigger] five_rank(pick(cards@, a, b, c, d, e)), best@),
                    decreases n - l,
                {
                    let mut m: usize = l + 1;
                    while m < n
                        invariant
                            n == cards@.len(),
                            i < j < k < l < n,
                            l < m <= n,
                            !found ==> best@ == seq![0u8],
                            found ==> is_combo(n as int, w.0, w.1, w.2, w.3, w.4)
                                && best@ == five_rank(pick(cards@, w.0, w.1, w.2, w.3, w.4)),
                            found ==> n >= 5,
                            forall|a: int, b: int, c: int, d: int, e: int|
                                is_combo(n as int, a, b, c, d, e)
                                && (a < i || (a == i && b < j) || (a == i && b == j && c < k)
                                    || (a == i && b == j && c == k && d < l)
                                    || (a == i && b == j && c == k && d == l && e < m))
                                ==> !lex_gt(#[trigger] five_rank(pick(cards@, a, b, c, d, e)), best@),
                        decreases n - m,
                    {
                        let five = vec![cards[i], cards[j], cards[k], cards[l], cards[m]];
                        assert(five@ =~= pick(cards@, i as int, j as int, k as int, l as int, m as int));
                        let rank = evaluate_five(five.as_slice());
                        let ghost old_best = best@;
                        if lex_greater(&rank, &best) {
                            best = rank;
                            proof {
                                found = true;
                                w = (i as int, j as int, k as int, l as int, m as int);
                                assert forall|a: int, b: int, c: int, d: int, e: int|
                                    is_combo(n as int, a, b, c, d, e)
                                    && (a < i || (a == i && b < j) || (a == i && b == j && c < k)
                                        || (a == i && b == j && c == k && d < l)
                                        || (a == i && b == j && c == k && d == l && e < m + 1))
                                    implies !lex_gt(#[trigger] five_rank(pick(cards@, a, b, c, d, e)), best@) by {
                                    let x = five_rank(pick(cards@, a, b, c, d, e));
                                    if e == m && a == i && b == j && c == k && d == l {
                                        lemma_lex_gt_irreflexive(best@);
                                    } else if lex_gt(x, best@) {
                                        lemma_lex_gt_transitive(x, best@, old_best);
                                    }
                                }
                            }
                        } else {
                            proof {
                                lemma_five_rank_beats_zero(five@);
                            }
                        }
                        m = m + 1;
                    }
                    l = l + 1;
                }
                k = k + 1;
            }
            j = j + 1;
        }
        i = i + 1;
    }
    proof {
        if n >= 5 {
            let r = five_rank(pick(cards@, 0, 1, 2, 3, 4));
            assert(is_combo(n as int, 0, 1, 2, 3, 4));
            lemma_five_rank_beats_zero(pick(cards@, 0, 1, 2, 3, 4));
            if !found {
                assert(!lex_gt(r, best@));
            }
            assert(is_combo(n as int, w.0, w.1, w.2, w.3, w.4)
                && best@ == five_rank(pick(cards@, w.0, w.1, w.2, w.3, w.4)));
        }
        assert(is_best_of(cards@, best@));
        lemma_best_of_unique(cards@, best@, hand_value(cards@));
    }
    best
}


// ---------------------------------------------------------------------------
// Names and pictures
// ---------------------------------------------------------------------------

/// The name of the category of a hand value.
pub open spec fn category_name(rank: Seq<u8>) -> Seq<char> {
    if rank.len() == 0 {
        "Unknown"@
    } else if rank[0] == 8 {
        "Straight Flush"@
    } else if rank[0] == 7 {
        "Four of a Kind"@
    } else if rank[0] == 6 {
        "Full House"@
    } else if rank[0] == 5 {
        "Flush"@
    } else if rank[0] == 4 {
        "Straight"@
    } else if rank[0] == 3 {
        "Three of a Kind"@
    } else if rank[0] == 2 {
        "Two Pair"@
    } else if rank[0] == 1 {
        "Pair"@
    } else {
        "High Card"@
    }
}

/// The name of the category of a hand value.
pub fn rank_to_string(rank: &[u8]) -> (r: String)
    ensures
        r@ == category_name(rank@),
{
    if rank.len() == 0 {
        return String::from_str("Unknown");
    }
    let category = if rank[0] == 8 {
        "Straight Flush"
    } else if rank[0] == 7 {
        "Four of a Kind"
    } else if rank[0] == 6 {
        "Full House"
    } else if rank[0] == 5 {
        "Flush"
    } else if rank[0] == 4 {
        "Straight"
    } else if rank[0] == 3 {
        "Three of a Kind"
    } else if rank[0] == 2 {
        "Two Pair"
    } else if rank[0] == 1 {
        "Pair"
    } else {
        "High Card"
    };
    String::from_str(category)
}

/// The short label of a rank: A, K, Q, J, 10 down to 2, or `?`.
pub open spec fn rank_label(rank: u8) -> Seq<char> {
    if rank == 14 { "A"@ }
    else if rank == 13 { "K"@ }
    else if rank == 12 { "Q"@ }
    else if rank == 11 { "J"@ }
    else if rank == 10 { "10"@ }
    else if rank == 9 { "9"@ }
    else if rank == 8 { "8"@ }
    else if rank == 7 { "7"@ }
    else if rank == 6 { "6"@ }
    else if rank == 5 { "5"@ }
    else if rank == 4 { "4"@ }
    else if rank == 3 { "3"@ }
    else if rank == 2 { "2"@ }
    else { "?"@ }
}

/// The symbol of a suit: ♦ ♥ ♣ ♠, or `?`.
pub open spec fn suit_symbol(suit: u8) -> Seq<char> {
    if suit == 0 { "♦"@ }
    else if suit == 1 { "♥"@ }
    else if suit == 2 { "♣"@ }
    else if suit == 3 { "♠"@ }
    else { "?"@ }
}

/// A card as its rank label followed by its suit symbol, such as `10♣`.
pub fn card_to_emoji(card: EvalCard) -> (r: String)
    ensures
        r@ == rank_label(card.rank) + suit_symbol(card.suit),
{
    let rank = if card.rank == 14 { "A" }
        else if card.rank == 13 { "K" }
        else if card.rank == 12 { "Q" }
        else if card.rank == 11 { "J" }
        else if card.rank == 10 { "10" }
        else if card.rank == 9 { "9" }
        else if card.rank == 8 { "8" }
        else if card.rank == 7 { "7" }
        else if card.rank == 6 { "6" }
        else if card.rank == 5 { "5" }
        else if card.rank == 4 { "4" }
        else if card.rank == 3 { "3" }
        else if card.rank == 2 { "2" }
        else { "?" };
    let suit = if card.suit == 0 { "♦" }
        else if card.suit == 1 { "♥" }
        else if card.suit == 2 { "♣" }
        else if card.suit == 3 { "♠" }
        else { "?" };
    crate::text::concat_str(rank, suit)
}

/// The position of a card's value emoji: 0 for the ace and for ranks outside
/// 2..14, else the rank less one.
pub open spec fn emoji_index(rank: u8) -> nat {
    if rank == 14 { 0 } else if 2 <= rank <= 13 { (rank - 1) as nat } else { 0 }
}

/// The value emoji of a card: red for diamonds and hearts, black otherwise.
pub open spec fn value_emoji(card: EvalCard) -> Seq<char> {
    if card.suit == 0 || card.suit == 1 {
        red_card(emoji_index(card.rank))
    } else {
        black_card(emoji_index(card.rank))
    }
}

/// The value emoji of the cards, each followed by a space.
pub open spec fn values_line(cards: Seq<EvalCard>) -> Seq<char>
    decreases cards.len(),
{
    if cards.len() == 0 {
        Seq::empty()
    } else {
        values_line(cards.drop_last()) + value_emoji(cards.last()) + seq![' ']
    }
}

/// The suit emoji of the cards, each followed by a space.
pub open spec fn suits_line(cards: Seq<EvalCard>) -> Seq<char>
    decreases cards.len(),
{
    if cards.len() == 0 {
        Seq::empty()
    } else {
        suits_line(cards.drop_last()) + suite_emoji(cards.last().suit as nat) + seq![' ']
    }
}

/// Draws the cards as two lines of custom emoji: the values, then the suits.
pub fn cards_to_discord_emojis(cards: &[EvalCard]) -> (r: String)
    requires
        forall|i: int| 0 <= i < cards@.len() ==> #[trigger] cards@[i].suit < 4,
    ensures
        r@ == values_line(cards@) + seq!['\n'] + suits_line(cards@),
{
    let mut values = String::new();
    let mut suits = String::new();
    let mut i: usize = 0;
    while i < cards.len()
        invariant
            i <= cards@.len(),
            forall|k: int| 0 <= k < cards@.len() ==> #[trigger] cards@[k].suit < 4,
            values@ == values_line(cards@.take(i as int)),
            suits@ == suits_line(cards@.take(i as int)),
        decreases cards.len() - i,
    {
        let card = cards[i];
        let idx: usize = if card.rank == 14 {
            0
        } else if 2 <= card.rank && card.rank <= 13 {
            (card.rank - 1) as usize
        } else {
            0
        };
        let value = if card.suit == 0 || card.suit == 1 {
            red_cards(idx)
        } else {
            black_cards(idx)
        };
        values.append(value);
        values.append(" ");
        suits.append(suites(card.suit as usize));
        suits.append(" ");
        proof {
            reveal_strlit(" ");
            let t = cards@.take(i + 1);
            assert(t.drop_last() =~= cards@.take(i as int));
            assert(t.last() == card);
            assert(values@ =~= values_line(t));
            assert(suits@ =~= suits_line(t));
        }
        i = i + 1;
    }
    assert(cards@.take(cards@.len() as int) =~= cards@);
    proof { reveal_strlit("\n"); }
    values.append("\n");
    values.append(suits.as_str());
    values
}

} // verus!
