//! An American roulette wheel (0, 00 and 1 to 36; 37 stands for 00) and the
//! settlement of bets against a spin.

use vstd::prelude::*;

use crate::sql::structs::BetResult;
use crate::text::{dec, push_dec};

verus! {

/// The colour of a pocket.
#[derive(Debug, Clone, Copy, PartialEq, Eq, Structural)]
pub enum Color {
    RED,
    BLACK,
    GREEN,
}

/// The outcome of a spin: the pocket, its colour, and whether its number is even
/// (`oddness` is true for even numbers).
#[derive(Debug, Clone, Copy, PartialEq, Eq, Structural)]
pub struct SpinResult {
    pub value: u8,
    pub color: Color,
    pub oddness: bool,
}

/// The colour of pocket `n`: 0 and 00 (37) are green; from 1 to 10 and from
/// 19 to 28 odd numbers are red and even ones black; elsewhere the reverse.
pub open spec fn color_of(n: u8) -> Color {
    if n == 0 || n == 37 {
        Color::GREEN
    } else if n <= 10 || (19 <= n && n <= 28) {
        if n % 2 == 0 { Color::BLACK } else { Color::RED }
    } else {
        if n % 2 == 0 { Color::RED } else { Color::BLACK }
    }
}

/// The colour of the pocket the ball landed in.
pub fn get_color(rng: u8) -> (r: Color)
    ensures
        r == color_of(rng),
{
    if rng == 0 || rng == 37 {
        return Color::GREEN;
    }
    if rng <= 10 || (19 <= rng && rng <= 28) {
        if rng % 2 == 0 {
            return Color::BLACK;
        } else {
            return Color::RED;
        }
    }
    if rng % 2 == 0 {
        Color::RED
    } else {
        Color::BLACK
    }
}

/// A random byte: `rand::random::<u8>()` of the rand crate. Any value may come back.
#[verifier::external_body]
fn random_byte() -> (r: u8) {
    rand::random::<u8>()
}

/// The spin of a given pocket.
pub open spec fn spin_of(value: u8) -> SpinResult {
    SpinResult { value, color: color_of(value), oddness: value % 2 == 0 }
}

/// The spin a random byte `b` gives: pocket `b % 38`.
pub fn spin_from_byte(b: u8) -> (r: SpinResult)
    ensures
        r == spin_of(b % 38),
{
    let pocket = b % 38;
    SpinResult { value: pocket, color: get_color(pocket), oddness: pocket % 2 == 0 }
}

/// Spins the wheel: a random pocket from 0 to 37 with its colour and parity.
pub fn get_spin() -> (r: SpinResult)
    ensures
        r.value < 38,
        r == spin_of(r.value),
{
    spin_from_byte(random_byte())
}

/// Whether a bet of stored kind `bet_type` (and number `specific`) wins on `spin`.
/// The even-money bets (kinds 0 to 5) lose on the green pockets.
pub open spec fn bet_wins(bet_type: u8, specific: Option<u8>, spin: SpinResult) -> bool {
    let green = spin.color == Color::GREEN;
    if bet_type == 0 {
        spin.color == Color::RED
    } else if bet_type == 1 {
        spin.color == Color::BLACK
    } else if bet_type == 2 {
        !green && spin.oddness
    } else if bet_type == 3 {
        !green && !spin.oddness
    } else if bet_type == 4 {
        !green && spin.value <= 18
    } else if bet_type == 5 {
        !green && spin.value >= 19
    } else if bet_type == 6 {
        specific == Some(spin.value)
    } else if bet_type == 7 {
        green
    } else {
        false
    }
}

/// The odds paid on a winning bet of stored kind `bet_type`: 35 to 1 on a
/// single number, 17 to 1 on green (0 and 00), 1 to 1 otherwise.
pub open spec fn payout(bet_type: u8) -> int {
    if bet_type == 6 { 35 } else if bet_type == 7 { 17 } else { 1 }
}

/// The settled `net` of a bet with stake `net`: the stake and its winnings
/// on a win, the stake as a loss otherwise.
pub open spec fn settled_net(bet: BetResult, spin: SpinResult) -> int {
    if bet_wins(bet.bet_type, bet.specific_bet, spin) {
        bet.net * (1 + payout(bet.bet_type))
    } else {
        -bet.net
    }
}

/// Whether a bet wins on the spin.
pub fn bet_won(bet: BetResult, spin: SpinResult) -> (r: bool)
    ensures
        r == bet_wins(bet.bet_type, bet.specific_bet, spin),
{
    let green = spin.color == Color::GREEN;
    if bet.bet_type == 0 {
        spin.color == Color::RED
    } else if bet.bet_type == 1 {
        spin.color == Color::BLACK
    } else if bet.bet_type == 2 {
        !green && spin.oddness
    } else if bet.bet_type == 3 {
        !green && !spin.oddness
    } else if bet.bet_type == 4 {
        !green && spin.value <= 18
    } else if bet.bet_type == 5 {
        !green && spin.value >= 19
    } else if bet.bet_type == 6 {
        match bet.specific_bet {
            Some(v) => v == spin.value,
            None => false,
        }
    } else if bet.bet_type == 7 {
        green
    } else {
        false
    }
}

/// Whether settling a bet gives a result that fits an `i64` (where
/// `bet_check` may be used).
pub fn settled_net_fits(bet: BetResult, spin: SpinResult) -> (r: bool)
    ensures
        r == (i64::MIN <= settled_net(bet, spin) <= i64::MAX),
{
    if bet_won(bet, spin) {
        let factor: i64 = if bet.bet_type == 6 { 36 } else if bet.bet_type == 7 { 18 } else { 2 };
        bet.net.checked_mul(factor).is_some()
    } else {
        bet.net != i64::MIN
    }
}

/// Settles a bet against the spin. The stake was taken when the bet was
/// placed, so `net` starts as the stake: a win makes it the stake plus
/// stake times the odds, a loss makes it the negated stake.
pub fn bet_check(bet: &mut BetResult, spin: SpinResult)
    requires
        i64::MIN <= settled_net(*old(bet), spin) <= i64::MAX,
    ensures
        final(bet).net == settled_net(*old(bet), spin),
        final(bet).user_id == old(bet).user_id,
        final(bet).bet_type == old(bet).bet_type,
        final(bet).specific_bet == old(bet).specific_bet,
{
    let won = bet_won(*bet, spin);
    if won {
        let p: i64 = if bet.bet_type == 6 { 35 } else if bet.bet_type == 7 { 17 } else { 1 };
        let n = bet.net;
        assert(p == payout(bet.bet_type));
        assert(i64::MIN <= n * (1 + p) <= i64::MAX);
        assert(i64::MIN <= n * p <= i64::MAX && n + n * p == n * (1 + p)) by (nonlinear_arith)
            requires p >= 1, i64::MIN <= n * (1 + p) <= i64::MAX;
        bet.net = n + n * p;
    } else {
        bet.net = -bet.net;
    }
}

/// Settles every bet against the spin, in order.
pub fn settle_bets(bets: &mut Vec<BetResult>, spin: SpinResult)
    requires
        forall|i: int| 0 <= i < old(bets)@.len() ==> i64::MIN <= #[trigger] settled_net(old(bets)@[i], spin) <= i64::MAX,
    ensures
        final(bets)@.len() == old(bets)@.len(),
        forall|i: int| 0 <= i < final(bets)@.len() ==> #[trigger] final(bets)@[i]
            == (BetResult { net: settled_net(old(bets)@[i], spin) as i64, ..old(bets)@[i] }),
{
    let mut i: usize = 0;
    while i < bets.len()
        invariant
            bets@.len() == old(bets)@.len(),
            i <= bets@.len(),
            forall|j: int| 0 <= j < old(bets)@.len() ==> i64::MIN <= #[trigger] settled_net(old(bets)@[j], spin) <= i64::MAX,
            forall|j: int| 0 <= j < i ==> #[trigger] bets@[j]
                == (BetResult { net: settled_net(old(bets)@[j], spin) as i64, ..old(bets)@[j] }),
            forall|j: int| i <= j < bets@.len() ==> #[trigger] bets@[j] == old(bets)@[j],
        decreases bets.len() - i,
    {
        let mut bet = bets[i];
        assert(bet == old(bets)@[i as int]);
        bet_check(&mut bet, spin);
        bets.set(i, bet);
        i = i + 1;
    }
}

/// How a colour is written.
pub open spec fn color_text(c: Color) -> Seq<char> {
    match c {
        Color::RED => "Red"@,
        Color::BLACK => "Black"@,
        Color::GREEN => "Green"@,
    }
}

/// How a spin is written.
pub open spec fn spin_text(s: SpinResult) -> Seq<char> {
    "Value: "@ + dec(s.value as nat) + ", Color: "@ + color_text(s.color) + ", Oddness: "@
        + (if s.oddness { "true"@ } else { "false"@ })
}

/// How a spin is written.
pub fn spin_description(s: SpinResult) -> (r: String)
    ensures
        r@ == spin_text(s),
{
    let mut out = String::from_str("Value: ");
    push_dec(&mut out, s.value as u64);
    out.append(", Color: ");
    match s.color {
        Color::RED => out.append("Red"),
        Color::BLACK => out.append("Black"),
        Color::GREEN => out.append("Green"),
    }
    out.append(", Oddness: ");
    if s.oddness {
        out.append("true");
    } else {
        out.append("false");
    }
    out
}

/// The line announcing a settled bet: the player, whether they won or
/// lost, and how much.
pub open spec fn result_line(b: BetResult) -> Seq<char> {
    "\n<@"@ + dec(b.user_id as nat) + "> "@ + (if b.net < 0 { "lost"@ } else { "won"@ }) + " "@
        + dec((if b.net < 0 { -b.net } else { b.net as int }) as nat) + "!"@
}

/// The lines announcing settled bets, in order.
pub open spec fn result_lines(bets: Seq<BetResult>) -> Seq<char>
    decreases bets.len(),
{
    if bets.len() == 0 { Seq::empty() } else { result_lines(bets.drop_last()) + result_line(bets.last()) }
}

/// The announcement of a spin and its settled bets.
pub open spec fn results_text(spin: SpinResult, bets: Seq<BetResult>) -> Seq<char> {
    "The results are in! The spin was "@ + spin_text(spin) + "!"@ + result_lines(bets)
}

/// Appends the line announcing a settled bet.
fn push_result_line(out: &mut String, b: BetResult)
    requires
        b.net != i64::MIN,
    ensures
        final(out)@ == old(out)@ + result_line(b),
{
    out.append("\n<@");
    push_dec(out, b.user_id);
    out.append("> ");
    if b.net < 0 {
        out.append("lost");
    } else {
        out.append("won");
    }
    out.append(" ");
    let magnitude: u64 = if b.net < 0 { (0 - b.net) as u64 } else { b.net as u64 };
    push_dec(out, magnitude);
    out.append("!");
    assert(out@ =~= old(out)@ + result_line(b));
}

/// The announcement of a spin and its settled bets.
pub fn results_description(spin: SpinResult, bets: &Vec<BetResult>) -> (r: String)
    requires
        forall|i: int| 0 <= i < bets@.len() ==> (#[trigger] bets@[i]).net != i64::MIN,
    ensures
        r@ == results_text(spin, bets@),
{
    let mut out = String::from_str("The results are in! The spin was ");
    let shown = spin_description(spin);
    out.append(shown.as_str());
    out.append("!");
    let ghost head = out@;
    let mut i: usize = 0;
    while i < bets.len()
        invariant
            i <= bets@.len(),
            forall|j: int| 0 <= j < bets@.len() ==> (#[trigger] bets@[j]).net != i64::MIN,
            out@ == head + result_lines(bets@.take(i as int)),
        decreases bets.len() - i,
    {
        let b = bets[i];
        push_result_line(&mut out, b);
        proof {
            assert(bets@.take(i + 1).drop_last() =~= bets@.take(i as int));
            assert(bets@.take(i + 1).last() == b);
            assert(out@ =~= head + result_lines(bets@.take(i + 1)));
        }
        i = i + 1;
    }
    assert(bets@.take(bets@.len() as int) =~= bets@);
    out
}

/// The red pockets of the wheel: 1, 3, 5, 7, 9, 12, 14, 16, 18, 19, 21, 23,
/// 25, 27, 30, 32, 34 and 36.
pub open spec fn is_red_pocket(v: u8) -> bool {
    v == 1 || v == 3 || v == 5 || v == 7 || v == 9 || v == 12 || v == 14 || v == 16 || v == 18 || v == 19
        || v == 21 || v == 23 || v == 25 || v == 27 || v == 30 || v == 32 || v == 34 || v == 36
}

/// The table's rules, pocket by pocket, for the spin of pocket `v`: a bet
/// on a single number wins exactly when the ball lands on that number and
/// is paid 35 to 1 on top of the stake; green wins exactly on 0 and 00 (37);
/// red wins on the red pockets and black on the others but 0 and 00; even,
/// odd, low (1-18) and high (19-36) win by the number and all lose on 0 and
/// 00; a losing bet loses its stake.
pub proof fn lemma_bets_settle_by_the_pocket(bet: BetResult, v: u8)
    requires
        v < 38,
    ensures
        bet.bet_type == 6 ==> (bet_wins(6, bet.specific_bet, spin_of(v)) <==> bet.specific_bet == Some(v)),
        bet.bet_type == 6 ==> settled_net(bet, spin_of(v)) == if bet.specific_bet == Some(v) { bet.net * 36 } else { -bet.net },
        bet_wins(7, bet.specific_bet, spin_of(v)) <==> (v == 0 || v == 37),
        bet_wins(0, bet.specific_bet, spin_of(v)) <==> is_red_pocket(v),
        bet_wins(1, bet.specific_bet, spin_of(v)) <==> (v != 0 && v != 37 && !is_red_pocket(v)),
        bet_wins(2, bet.specific_bet, spin_of(v)) <==> (v != 0 && v != 37 && v % 2 == 0),
        bet_wins(3, bet.specific_bet, spin_of(v)) <==> (v != 0 && v != 37 && v % 2 == 1),
        bet_wins(4, bet.specific_bet, spin_of(v)) <==> (1 <= v <= 18),
        bet_wins(5, bet.specific_bet, spin_of(v)) <==> (19 <= v <= 36),
        !bet_wins(bet.bet_type, bet.specific_bet, spin_of(v)) ==> settled_net(bet, spin_of(v)) == -bet.net,
{
}

} // verus!
