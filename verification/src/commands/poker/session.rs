//! The state of a poker table and the moves that change it.

use std::collections::{HashMap, HashSet};

use vstd::prelude::*;

use crate::commands::poker::hand_evaluator::{EvalCard, card_tuple_to_eval, face_rank};
use crate::sql::structs::suite_index;
use crate::text::{dec, push_dec};
use crate::utils::deck::{card_of_int, int_to_card};

verus! {

broadcast use vstd::std_specs::hash::group_hash_axioms;

/// The user id that stands for the bot opponent.
pub const BOT_USER_ID: u64 = 999_999_999_999_999_999;

const DEFAULT_TURN_SECONDS: u64 = 30;
const DEFAULT_LOBBY_SECONDS: u64 = 60;
const DEFAULT_BOT_BALANCE: u64 = 1000;

/// The stage of a hand.
#[derive(Debug, Clone, Copy, PartialEq, Eq, Structural)]
pub enum Phase {
    Lobby,
    PreFlop,
    Flop,
    Turn,
    River,
    Showdown,
    Finished,
}

/// A poker table: its players, bets and cards.
#[derive(Debug)]
pub struct PokerGameState {
    pub phase: Phase,
    pub players: Vec<u64>,
    pub current_player_index: usize,
    pub dealer_index: usize,
    pub pot: u64,
    pub current_bet: u64,
    pub round_bets: HashMap<u64, u64>,
    pub folded: HashSet<u64>,
    pub all_in: HashSet<u64>,
    pub acted_this_round: HashSet<u64>,
    pub community_cards: Vec<u8>,
    pub hole_cards: HashMap<u64, Vec<u8>>,
    pub lobby_message_id: Option<u64>,
    pub status_message_id: Option<u64>,
    pub action_prompt_message_id: Option<u64>,
    pub turn_seconds: u64,
    pub lobby_seconds: u64,
    pub has_bot: bool,
    pub bot_balance: u64,
    pub small_blind: u64,
    pub big_blind: u64,
    pub turn_timer_id: u64,
    pub max_hand_bet: Option<u64>,
    pub hand_bets: HashMap<u64, u64>,
}

/// The table as mathematical values.
pub struct TableView {
    pub phase: Phase,
    pub players: Seq<u64>,
    pub current_player_index: usize,
    pub dealer_index: usize,
    pub pot: u64,
    pub current_bet: u64,
    pub round_bets: Map<u64, u64>,
    pub folded: Set<u64>,
    pub all_in: Set<u64>,
    pub acted: Set<u64>,
    pub community_cards: Seq<u8>,
    pub hole_cards: Map<u64, Seq<u8>>,
    pub lobby_message_id: Option<u64>,
    pub status_message_id: Option<u64>,
    pub action_prompt_message_id: Option<u64>,
    pub turn_seconds: u64,
    pub lobby_seconds: u64,
    pub has_bot: bool,
    pub bot_balance: u64,
    pub small_blind: u64,
    pub big_blind: u64,
    pub turn_timer_id: u64,
    pub max_hand_bet: Option<u64>,
    pub hand_bets: Map<u64, u64>,
}

/// The hole cards of each player, as sequences.
pub open spec fn hole_cards_view(m: Map<u64, Vec<u8>>) -> Map<u64, Seq<u8>> {
    m.map_values(|v: Vec<u8>| v@)
}

impl View for PokerGameState {
    type V = TableView;

    open spec fn view(&self) -> TableView {
        TableView {
            phase: self.phase,
            players: self.players@,
            current_player_index: self.current_player_index,
            dealer_index: self.dealer_index,
            pot: self.pot,
            current_bet: self.current_bet,
            round_bets: self.round_bets@,
            folded: self.folded@,
            all_in: self.all_in@,
            acted: self.acted_this_round@,
            community_cards: self.community_cards@,
            hole_cards: hole_cards_view(self.hole_cards@),
            lobby_message_id: self.lobby_message_id,
            status_message_id: self.status_message_id,
            action_prompt_message_id: self.action_prompt_message_id,
            turn_seconds: self.turn_seconds,
            lobby_seconds: self.lobby_seconds,
            has_bot: self.has_bot,
            bot_balance: self.bot_balance,
            small_blind: self.small_blind,
            big_blind: self.big_blind,
            turn_timer_id: self.turn_timer_id,
            max_hand_bet: self.max_hand_bet,
            hand_bets: self.hand_bets@,
        }
    }
}

/// The amount recorded for `uid` in a bet map, 0 when there is none.
pub open spec fn bet_of(m: Map<u64, u64>, uid: u64) -> u64 {
    if m.contains_key(uid) { m[uid] } else { 0 }
}

/// `a + b`, capped at `u64::MAX`.
pub open spec fn capped_sum(a: u64, b: u64) -> int {
    if a + b > u64::MAX { u64::MAX as int } else { a + b }
}

/// The players who have not folded, in seat order.
pub open spec fn active_of(players: Seq<u64>, folded: Set<u64>) -> Seq<u64>
    decreases players.len(),
{
    if players.len() == 0 {
        Seq::empty()
    } else if folded.contains(players.last()) {
        active_of(players.drop_last(), folded)
    } else {
        active_of(players.drop_last(), folded).push(players.last())
    }
}

/// The evaluator card of card number `c`.
pub open spec fn eval_of_int(c: u8) -> EvalCard {
    EvalCard { rank: face_rank(card_of_int(c as nat).0), suit: suite_index(card_of_int(c as nat).1) as u8 }
}

/// The evaluator cards of a sequence of card numbers.
pub open spec fn eval_cards(cards: Seq<u8>) -> Seq<EvalCard> {
    cards.map_values(|c: u8| eval_of_int(c))
}

impl TableView {
    /// The active players.
    pub open spec fn active(self) -> Seq<u64> {
        active_of(self.players, self.folded)
    }

    /// This round's bet of a player.
    pub open spec fn round_bet(self, uid: u64) -> u64 {
        bet_of(self.round_bets, uid)
    }

    /// A player's bets over the whole hand.
    pub open spec fn hand_bet(self, uid: u64) -> u64 {
        bet_of(self.hand_bets, uid)
    }

    /// The player whose turn it is, if the index points at a seat.
    pub open spec fn current(self) -> Option<u64> {
        if self.current_player_index < self.players.len() {
            Some(self.players[self.current_player_index as int])
        } else {
            None
        }
    }

    /// The seat `t` steps after the current one (for `t` at least 1).
    pub open spec fn step_pos(self, t: int) -> int {
        (self.current_player_index + t) % (self.players.len() as int)
    }

    /// The player in seat `p` still has to act this round: not folded, not
    /// all in, and either not yet acted or short of the current bet.
    pub open spec fn needs_turn(self, p: int) -> bool {
        let id = self.players[p];
        &&& !self.folded.contains(id)
        &&& !self.all_in.contains(id)
        &&& (!self.acted.contains(id) || self.round_bet(id) < self.current_bet)
    }

    /// The seat `t` steps into a scan that starts at the current index.
    pub open spec fn skip_pos(self, t: int) -> int {
        if t == 0 {
            self.current_player_index as int
        } else {
            (self.current_player_index + t) % (self.players.len() as int)
        }
    }

    /// Seat `p` exists and its player can still bet: not folded, not all in.
    pub open spec fn can_act(self, p: int) -> bool {
        &&& 0 <= p < self.players.len()
        &&& !self.folded.contains(self.players[p])
        &&& !self.all_in.contains(self.players[p])
    }

    /// Every active player who is not all in has acted and matched the
    /// current bet; always so with fewer than two active players.
    pub open spec fn round_complete(self) -> bool {
        self.active().len() < 2 || forall|i: int| 0 <= i < self.active().len() ==> {
            let id = #[trigger] self.active()[i];
            self.all_in.contains(id) || (self.round_bet(id) >= self.current_bet && self.acted.contains(id))
        }
    }

    /// The hole cards of a player, empty when none were dealt.
    pub open spec fn hole(self, uid: u64) -> Seq<u8> {
        if self.hole_cards.contains_key(uid) { self.hole_cards[uid] } else { Seq::empty() }
    }

    /// The next stage of the hand. Each new betting round starts with no
    /// bets and nobody having acted; the pre-flop round starts at the big
    /// blind and with no community cards. Showdown and Finished stay put.
    pub open spec fn after_advance_phase(self) -> TableView {
        match self.phase {
            Phase::Lobby => TableView {
                phase: Phase::PreFlop,
                current_bet: self.big_blind,
                round_bets: Map::empty(),
                acted: Set::empty(),
                community_cards: Seq::empty(),
                ..self
            },
            Phase::PreFlop => TableView {
                phase: Phase::Flop,
                current_bet: 0,
                round_bets: Map::empty(),
                acted: Set::empty(),
                ..self
            },
            Phase::Flop => TableView {
                phase: Phase::Turn,
                current_bet: 0,
                round_bets: Map::empty(),
                acted: Set::empty(),
                ..self
            },
            Phase::Turn => TableView {
                phase: Phase::River,
                current_bet: 0,
                round_bets: Map::empty(),
                acted: Set::empty(),
                ..self
            },
            Phase::River => TableView { phase: Phase::Showdown, current_bet: 0, ..self },
            _ => self,
        }
    }

    /// Looks at the seats `t`, `t + 1`, .., `k` steps after the current one:
    /// the first whose player still has to act, with `true`; the seat `k`
    /// steps on, with `false`, when there is none.
    pub open spec fn turn_scan(self, t: int, k: int) -> (int, bool)
        decreases k + 1 - t,
    {
        if t < 1 || t > k {
            (self.step_pos(k), false)
        } else if self.needs_turn(self.step_pos(t)) {
            (self.step_pos(t), true)
        } else {
            self.turn_scan(t + 1, k)
        }
    }

    /// The table once the turn has moved on, and whether the turn reached a
    /// player who still has to act. It looks at every seat in turn, starting
    /// after the current one, and stops at the first player who still has to
    /// act; with fewer than two active players nothing moves.
    pub open spec fn after_advance_turn(self) -> (TableView, bool) {
        let n = self.players.len() as int;
        if self.active().len() < 2 {
            (self, false)
        } else {
            (TableView { current_player_index: self.turn_scan(1, n).0 as usize, ..self }, self.turn_scan(1, n).1)
        }
    }

    /// Looks at the seats `t`, `t + 1`, .. of a scan that starts at the
    /// current index: the first whose player can still bet, or the seat `n`
    /// steps on when there is none.
    pub open spec fn skip_scan(self, t: int, n: int) -> int
        decreases n - t,
    {
        if t < 0 || t >= n {
            self.skip_pos(n)
        } else if self.can_act(self.skip_pos(t)) {
            self.skip_pos(t)
        } else {
            self.skip_scan(t + 1, n)
        }
    }

    /// The table once the turn has moved, seat by seat, to a player who can
    /// still bet; after a full circle with nobody it is back where it began.
    pub open spec fn after_skip_folded(self) -> TableView {
        let n = self.players.len() as int;
        if n == 0 {
            self
        } else {
            TableView { current_player_index: self.skip_scan(0, n) as usize, ..self }
        }
    }
}

/// The hole cards once the seats `players` have been dealt, in seat order,
/// two cards each from `drawn`: seat `i` gets cards `2i` and `2i + 1`.
pub open spec fn dealt_hole_cards(hc: Map<u64, Seq<u8>>, players: Seq<u64>, drawn: Seq<u8>) -> Map<u64, Seq<u8>>
    decreases players.len(),
{
    if players.len() == 0 {
        hc
    } else {
        let k = players.len() - 1;
        dealt_hole_cards(hc, players.drop_last(), drawn).insert(players.last(), seq![drawn[2 * k], drawn[2 * k + 1]])
    }
}

/// Every seat dealt to holds two hole cards.
pub proof fn lemma_dealt_two_each(hc: Map<u64, Seq<u8>>, players: Seq<u64>, drawn: Seq<u8>)
    ensures
        forall|i: int| 0 <= i < players.len() ==> #[trigger] dealt_hole_cards(hc, players, drawn).contains_key(players[i])
            && dealt_hole_cards(hc, players, drawn)[players[i]].len() == 2,
    decreases players.len(),
{
    if players.len() > 0 {
        let q = players.drop_last();
        lemma_dealt_two_each(hc, q, drawn);
        assert forall|i: int| 0 <= i < players.len() implies #[trigger] dealt_hole_cards(hc, players, drawn).contains_key(players[i])
            && dealt_hole_cards(hc, players, drawn)[players[i]].len() == 2 by {
            let k = players.len() - 1;
            let m = dealt_hole_cards(hc, players, drawn);
            let last_cards = seq![drawn[2 * k], drawn[2 * k + 1]];
            assert(m == dealt_hole_cards(hc, q, drawn).insert(players.last(), last_cards));
            if players[i] != players.last() {
                assert(i < k);
                assert(players[i] == q[i]);
                assert(dealt_hole_cards(hc, q, drawn).contains_key(q[i]));
            }
        }
    }
}

impl PokerGameState {
    /// The table `new` makes for `host`.
    pub open spec fn new_table_view(host: u64) -> TableView {
        TableView {
            phase: Phase::Lobby,
            players: seq![host],
            current_player_index: 0,
            dealer_index: 0,
            pot: 0,
            current_bet: 0,
            round_bets: Map::empty(),
            folded: Set::empty(),
            all_in: Set::empty(),
            acted: Set::empty(),
            community_cards: Seq::empty(),
            hole_cards: Map::empty(),
            lobby_message_id: None,
            status_message_id: None,
            action_prompt_message_id: None,
            turn_seconds: 30,
            lobby_seconds: 60,
            has_bot: false,
            bot_balance: 1000,
            small_blind: 25,
            big_blind: 50,
            turn_timer_id: 0,
            max_hand_bet: None,
            hand_bets: Map::empty(),
        }
    }

    /// A table in the lobby with its host seated.
    pub fn new(host: u64) -> (r: Self)
        ensures
            r@ == Self::new_table_view(host),
    {
        let r = PokerGameState {
            phase: Phase::Lobby,
            players: vec![host],
            current_player_index: 0,
            dealer_index: 0,
            pot: 0,
            current_bet: 0,
            round_bets: HashMap::new(),
            folded: HashSet::new(),
            all_in: HashSet::new(),
            acted_this_round: HashSet::new(),
            community_cards: Vec::new(),
            hole_cards: HashMap::new(),
            lobby_message_id: None,
            status_message_id: None,
            action_prompt_message_id: None,
            turn_seconds: DEFAULT_TURN_SECONDS,
            lobby_seconds: DEFAULT_LOBBY_SECONDS,
            has_bot: false,
            bot_balance: DEFAULT_BOT_BALANCE,
            small_blind: 25,
            big_blind: 50,
            turn_timer_id: 0,
            max_hand_bet: None,
            hand_bets: HashMap::new(),
        };
        assert(hole_cards_view(r.hole_cards@) =~= Map::empty());
        assert(r.players@ =~= seq![host]);
        assert(r.community_cards@ =~= Seq::<u8>::empty());
        r
    }

    /// The player whose turn it is.
    pub fn current_player(&self) -> (r: Option<u64>)
        ensures
            r == self@.current(),
    {
        if self.current_player_index < self.players.len() {
            Some(self.players[self.current_player_index])
        } else {
            None
        }
    }

    /// Whether a user sits at the table.
    pub fn has_player(&self, uid: u64) -> (r: bool)
        ensures
            r == self@.players.contains(uid),
    {
        let mut i: usize = 0;
        while i < self.players.len()
            invariant
                i <= self.players@.len(),
                forall|j: int| 0 <= j < i ==> self.players@[j] != uid,
            decreases self.players.len() - i,
        {
            if self.players[i] == uid {
                return true;
            }
            i = i + 1;
        }
        false
    }

    /// Seats a user; false when already seated.
    pub fn add_player(&mut self, uid: u64) -> (r: bool)
        ensures
            r == !old(self)@.players.contains(uid),
            final(self)@ == (TableView {
                players: if r { old(self)@.players.push(uid) } else { old(self)@.players },
                ..old(self)@
            }),
    {
        if self.has_player(uid) {
            return false;
        }
        self.players.push(uid);
        true
    }

    /// Seats the bot once.
    pub fn add_bot(&mut self)
        ensures
            final(self)@ == (if old(self)@.players.contains(BOT_USER_ID) {
                old(self)@
            } else {
                TableView { players: old(self)@.players.push(BOT_USER_ID), has_bot: true, ..old(self)@ }
            }),
    {
        if !self.has_player(BOT_USER_ID) {
            self.players.push(BOT_USER_ID);
            self.has_bot = true;
        }
    }

    pub fn is_folded(&self, uid: u64) -> (r: bool)
        ensures
            r == self@.folded.contains(uid),
    {
        self.folded.contains(&uid)
    }

    pub fn is_all_in(&self, uid: u64) -> (r: bool)
        ensures
            r == self@.all_in.contains(uid),
    {
        self.all_in.contains(&uid)
    }

    /// The players who have not folded, in seat order.
    pub fn active_players(&self) -> (r: Vec<u64>)
        ensures
            r@ == self@.active(),
    {
        let mut r: Vec<u64> = Vec::new();
        let mut i: usize = 0;
        while i < self.players.len()
            invariant
                i <= self.players@.len(),
                r@ == active_of(self.players@.take(i as int), self.folded@),
            decreases self.players.len() - i,
        {
            let id = self.players[i];
            proof {
                assert(self.players@.take(i + 1).drop_last() =~= self.players@.take(i as int));
            }
            if !self.folded.contains(&id) {
                r.push(id);
            }
            i = i + 1;
        }
        assert(self.players@.take(self.players@.len() as int) =~= self.players@);
        r
    }

    /// This round's bet of a player.
    pub fn player_bet(&self, uid: u64) -> (r: u64)
        ensures
            r == self@.round_bet(uid),
    {
        match self.round_bets.get(&uid) {
            Some(v) => *v,
            None => 0,
        }
    }

    /// A player's bets over the whole hand.
    pub fn hand_bet(&self, uid: u64) -> (r: u64)
        ensures
            r == self@.hand_bet(uid),
    {
        match self.hand_bets.get(&uid) {
            Some(v) => *v,
            None => 0,
        }
    }

    /// Puts `amount` into the pot for a player, adding it to the player's
    /// round and hand bets.
    pub fn place_bet(&mut self, uid: u64, amount: u64)
        requires
            old(self)@.round_bet(uid) + amount <= u64::MAX,
            old(self)@.pot + amount <= u64::MAX,
            old(self)@.hand_bet(uid) + amount <= u64::MAX,
        ensures
            final(self)@ == (TableView {
                round_bets: old(self)@.round_bets.insert(uid, (old(self)@.round_bet(uid) + amount) as u64),
                pot: (old(self)@.pot + amount) as u64,
                hand_bets: old(self)@.hand_bets.insert(uid, (old(self)@.hand_bet(uid) + amount) as u64),
                ..old(self)@
            }),
    {
        let current = self.player_bet(uid);
        self.round_bets.insert(uid, current + amount);
        self.pot = self.pot + amount;
        let current_hand = self.hand_bet(uid);
        self.hand_bets.insert(uid, current_hand + amount);
    }

    /// Whether putting `amount` more into the pot would take the player's
    /// hand bets past the table's limit, if it has one.
    pub fn would_exceed_max_hand_bet(&self, uid: u64, amount: u64) -> (r: bool)
        ensures
            r == match self@.max_hand_bet {
                Some(max) => capped_sum(self@.hand_bet(uid), amount) > max,
                None => false,
            },
    {
        match self.max_hand_bet {
            Some(max) => self.hand_bet(uid).saturating_add(amount) > max,
            None => false,
        }
    }

    /// The player folds, which also counts as acting.
    pub fn fold(&mut self, uid: u64)
        ensures
            final(self)@ == (TableView {
                folded: old(self)@.folded.insert(uid),
                acted: old(self)@.acted.insert(uid),
                ..old(self)@
            }),
    {
        self.folded.insert(uid);
        self.acted_this_round.insert(uid);
    }

    /// The player has acted this round.
    pub fn mark_acted(&mut self, uid: u64)
        ensures
            final(self)@ == (TableView { acted: old(self)@.acted.insert(uid), ..old(self)@ }),
    {
        self.acted_this_round.insert(uid);
    }

    /// After a raise only the raiser has acted.
    pub fn clear_acted_except(&mut self, uid: u64)
        ensures
            final(self)@ == (TableView { acted: Set::empty().insert(uid), ..old(self)@ }),
    {
        self.acted_this_round.clear();
        self.acted_this_round.insert(uid);
    }

    /// Deals a player's hole cards.
    pub fn set_hole_cards(&mut self, uid: u64, cards: Vec<u8>)
        ensures
            final(self)@ == (TableView {
                hole_cards: old(self)@.hole_cards.insert(uid, cards@),
                ..old(self)@
            }),
    {
        let ghost cv = cards@;
        self.hole_cards.insert(uid, cards);
        assert(hole_cards_view(self.hole_cards@) =~= old(self)@.hole_cards.insert(uid, cv));
    }

    /// Deals the hole cards: `drawn` holds two cards for each seat, in seat
    /// order, and seat `i` gets cards `2i` and `2i + 1`.
    pub fn deal_hole_cards(&mut self, drawn: &Vec<u8>)
        requires
            drawn@.len() == 2 * old(self)@.players.len(),
        ensures
            final(self)@ == (TableView {
                hole_cards: dealt_hole_cards(old(self)@.hole_cards, old(self)@.players, drawn@),
                ..old(self)@
            }),
            forall|i: int| 0 <= i < old(self)@.players.len() ==> #[trigger] final(self)@.hole(old(self)@.players[i]).len() == 2,
    {
        let ghost o = self@;
        let n = self.players.len();
        let dn = drawn.len();
        let mut i: usize = 0;
        while i < n
            invariant
                n == o.players.len(),
                dn == drawn@.len(),
                drawn@.len() == 2 * n,
                i <= n,
                self@ == (TableView { hole_cards: dealt_hole_cards(o.hole_cards, o.players.take(i as int), drawn@), ..o }),
            decreases n - i,
        {
            let uid = self.players[i];
            let c1 = drawn[2 * i];
            let c2 = drawn[2 * i + 1];
            self.set_hole_cards(uid, vec![c1, c2]);
            proof {
                let t = o.players.take(i + 1);
                assert(t.drop_last() =~= o.players.take(i as int));
                assert(t.last() == uid);
                assert(seq![c1, c2] =~= seq![drawn@[2 * i], drawn@[2 * i + 1]]);
            }
            i = i + 1;
        }
        proof {
            assert(o.players.take(n as int) =~= o.players);
            lemma_dealt_two_each(o.hole_cards, o.players, drawn@);
        }
    }

    /// Deals a community card.
    pub fn add_community_card(&mut self, card: u8)
        ensures
            final(self)@ == (TableView {
                community_cards: old(self)@.community_cards.push(card),
                ..old(self)@
            }),
    {
        self.community_cards.push(card);
    }
}

/// The active players are at most the seated ones, each of them seated.
pub proof fn lemma_active_len(players: Seq<u64>, folded: Set<u64>)
    ensures
        active_of(players, folded).len() <= players.len(),
        forall|i: int| 0 <= i < active_of(players, folded).len() ==>
            players.contains(#[trigger] active_of(players, folded)[i]),
    decreases players.len(),
{
    if players.len() > 0 {
        lemma_active_len(players.drop_last(), folded);
        let a = active_of(players.drop_last(), folded);
        assert forall|i: int| 0 <= i < a.len() implies players.contains(#[trigger] a[i]) by {
            let j = choose|j: int| 0 <= j < players.drop_last().len() && players.drop_last()[j] == a[i];
            assert(players[j] == a[i]);
        }
        assert(players[players.len() - 1] == players.last());
    }
}

/// Nobody sits at a table twice: seating a user (as `add_player` and
/// `add_bot` do) and emptying a seat (as `remove_player` does) keep the
/// seats distinct, and the user whose seat was emptied is no longer seated.
pub proof fn lemma_seats_stay_distinct(players: Seq<u64>, uid: u64, pos: int)
    requires
        players.no_duplicates(),
    ensures
        (if players.contains(uid) { players } else { players.push(uid) }).no_duplicates(),
        0 <= pos < players.len() ==> players.remove(pos).no_duplicates(),
        0 <= pos < players.len() && players[pos] == uid ==> !players.remove(pos).contains(uid),
{
    if !players.contains(uid) {
        let q = players.push(uid);
        assert forall|i: int, j: int| 0 <= i < q.len() && 0 <= j < q.len() && i != j implies q[i] != q[j] by {
            if i == players.len() {
                assert(q[j] == players[j]);
            } else if j == players.len() {
                assert(q[i] == players[i]);
            }
        }
    }
    if 0 <= pos < players.len() {
        let q = players.remove(pos);
        assert forall|i: int, j: int| 0 <= i < q.len() && 0 <= j < q.len() && i != j implies q[i] != q[j] by {
            let a = if i < pos { i } else { i + 1 };
            let b = if j < pos { j } else { j + 1 };
            assert(q[i] == players[a] && q[j] == players[b]);
        }
        if players[pos] == uid && q.contains(uid) {
            let k = choose|k: int| 0 <= k < q.len() && q[k] == uid;
            let a = if k < pos { k } else { k + 1 };
            assert(players[a] == uid);
        }
    }
}

/// Stepping a seat index taken modulo `n` is stepping, then taking it modulo `n`.
pub proof fn lemma_mod_step(x: int, n: int)
    requires
        n > 1,
        x >= 0,
    ensures
        (x % n + 1) % n == (x + 1) % n,
{
    vstd::arithmetic::div_mod::lemma_add_mod_noop(x, 1, n);
    vstd::arithmetic::div_mod::lemma_small_mod(1, n as nat);
}

impl PokerGameState {
    /// Moves the turn to the next player, in seat order, who still has to
    /// act, skipping folded and all-in players, and returns whether there is
    /// one; with fewer than two active players nothing moves.
    pub fn advance_turn(&mut self) -> (r: bool)
        requires
            old(self)@.active().len() >= 2 ==> old(self).current_player_index < usize::MAX,
        ensures
            final(self)@ == old(self)@.after_advance_turn().0,
            r == old(self)@.after_advance_turn().1,
    {
        let active = self.active_players();
        let k = active.len();
        if k < 2 {
            return false;
        }
        proof { lemma_active_len(self@.players, self@.folded); }
        let ghost o = self@;
        let n = self.players.len();
        let mut t: usize = 0;
        while t < n
            invariant
                o == old(self)@,
                k == o.active().len(),
                n == o.players.len(),
                2 <= k <= n,
                t <= n,
                self@ == (TableView { current_player_index: self.current_player_index, ..o }),
                t == 0 ==> self.current_player_index == o.current_player_index,
                t >= 1 ==> self.current_player_index == o.step_pos(t as int),
                o.current_player_index < usize::MAX,
                o.turn_scan(1, n as int) == o.turn_scan(t + 1, n as int),
            decreases n - t,
        {
            proof {
                if t >= 1 {
                    lemma_mod_step(o.current_player_index + t, n as int);
                }
            }
            self.current_player_index = (self.current_player_index + 1) % n;
            let next = self.players[self.current_player_index];
            t = t + 1;
            assert(self.current_player_index == o.step_pos(t as int));
            if !self.is_folded(next) && !self.is_all_in(next) {
                if !self.acted_this_round.contains(&next) {
                    return true;
                }
                let player_bet = self.player_bet(next);
                if player_bet < self.current_bet {
                    return true;
                }
            }
        }
        false
    }

    /// Whether the betting round is over: fewer than two active players, or
    /// every active player who is not all in has acted and matched the bet.
    pub fn betting_round_complete(&self) -> (r: bool)
        ensures
            r == self@.round_complete(),
    {
        let active = self.active_players();
        if active.len() < 2 {
            return true;
        }
        let mut i: usize = 0;
        while i < active.len()
            invariant
                active@ == self@.active(),
                active@.len() >= 2,
                i <= active@.len(),
                forall|j: int| 0 <= j < i ==> {
                    let id = #[trigger] self@.active()[j];
                    self@.all_in.contains(id) || (self@.round_bet(id) >= self@.current_bet && self@.acted.contains(id))
                },
            decreases active.len() - i,
        {
            let uid = active[i];
            assert(self@.active()[i as int] == uid);
            if !self.is_all_in(uid) {
                let bet = self.player_bet(uid);
                if bet < self.current_bet {
                    return false;
                }
                if !self.acted_this_round.contains(&uid) {
                    return false;
                }
            }
            i = i + 1;
        }
        true
    }

    /// Moves to the next stage of the hand. Each new betting round starts
    /// with no bets and nobody having acted; the pre-flop round starts at the
    /// big blind and with no community cards. Showdown and Finished stay put.
    pub fn advance_phase(&mut self)
        ensures
            final(self)@ == old(self)@.after_advance_phase(),
    {
        match self.phase {
            Phase::Lobby => {
                self.phase = Phase::PreFlop;
                self.current_bet = self.big_blind;
                self.round_bets.clear();
                self.acted_this_round.clear();
                self.community_cards.clear();
            }
            Phase::PreFlop => {
                self.phase = Phase::Flop;
                self.current_bet = 0;
                self.round_bets.clear();
                self.acted_this_round.clear();
            }
            Phase::Flop => {
                self.phase = Phase::Turn;
                self.current_bet = 0;
                self.round_bets.clear();
                self.acted_this_round.clear();
            }
            Phase::Turn => {
                self.phase = Phase::River;
                self.current_bet = 0;
                self.round_bets.clear();
                self.acted_this_round.clear();
            }
            Phase::River => {
                self.phase = Phase::Showdown;
                self.current_bet = 0;
            }
            _ => {}
        }
        assert(self@.community_cards =~= self.community_cards@);
    }

    /// Moves the turn forward from the current index, seat by seat, to the
    /// first player who can still bet; after a full circle with nobody it
    /// stops where it started (reduced to a seat number).
    pub fn skip_folded_players(&mut self)
        requires
            old(self).players@.len() > 0 ==> old(self).current_player_index < usize::MAX,
        ensures
            final(self)@ == old(self)@.after_skip_folded(),
    {
        let len = self.players.len();
        if len == 0 {
            return;
        }
        let ghost o = self@;
        let mut t: usize = 0;
        while t < len
            invariant
                o == old(self)@,
                len == o.players.len(),
                len > 0,
                t <= len,
                o.current_player_index < usize::MAX,
                self@ == (TableView { current_player_index: self.current_player_index, ..o }),
                self.current_player_index == o.skip_pos(t as int),
                o.skip_scan(0, len as int) == o.skip_scan(t as int, len as int),
            decreases len - t,
        {
            if let Some(current) = self.current_player() {
                if !self.is_folded(current) && !self.is_all_in(current) {
                    return;
                }
            }
            proof {
                if t >= 1 && len > 1 {
                    lemma_mod_step(o.current_player_index + t, len as int);
                }
                if len == 1 {
                    assert((o.current_player_index + t + 1) % 1 == 0);
                    assert(self.current_player_index < len ==> self.current_player_index == 0);
                }
            }
            self.current_player_index = (self.current_player_index + 1) % len;
            t = t + 1;
            assert(self.current_player_index == o.skip_pos(t as int));
        }
    }

    /// Takes a user off the table: the first seat holding the user is
    /// emptied, the user counts as folded and as having acted, and loses any
    /// round bet and hole cards. A turn index past the last seat goes back to
    /// the first. Returns false, changing nothing, when the user is not seated.
    pub fn remove_player(&mut self, uid: u64) -> (r: bool)
        ensures
            r == old(self)@.players.contains(uid),
            !r ==> final(self)@ == old(self)@,
            r ==> exists|pos: int| 0 <= pos < old(self)@.players.len()
                && old(self)@.players[pos] == uid
                && (forall|j: int| 0 <= j < pos ==> old(self)@.players[j] != uid)
                && final(self)@ == (TableView {
                    players: old(self)@.players.remove(pos),
                    folded: old(self)@.folded.insert(uid),
                    round_bets: old(self)@.round_bets.remove(uid),
                    acted: old(self)@.acted.insert(uid),
                    hole_cards: old(self)@.hole_cards.remove(uid),
                    current_player_index: if old(self).current_player_index >= old(self)@.players.len() - 1
                        && old(self)@.players.len() - 1 > 0 { 0 } else { old(self).current_player_index },
                    ..old(self)@
                }),
    {
        let mut i: usize = 0;
        while i < self.players.len()
            invariant
                i <= self.players@.len(),
                forall|j: int| 0 <= j < i ==> self.players@[j] != uid,
            ensures
                i <= self.players@.len(),
                forall|j: int| 0 <= j < i ==> self.players@[j] != uid,
                i < self.players@.len() ==> self.players@[i as int] == uid,
            decreases self.players.len() - i,
        {
            if self.players[i] == uid {
                break;
            }
            i = i + 1;
        }
        if i == self.players.len() {
            assert(!old(self)@.players.contains(uid));
            return false;
        }
        let ghost pos = i as int;
        assert(old(self)@.players[pos] == uid);
        self.players.remove(i);
        self.folded.insert(uid);
        self.round_bets.remove(&uid);
        self.acted_this_round.insert(uid);
        self.hole_cards.remove(&uid);
        if self.current_player_index >= self.players.len() && self.players.len() > 0 {
            self.current_player_index = 0;
        }
        assert(hole_cards_view(self.hole_cards@) =~= old(self)@.hole_cards.remove(uid));
        assert(self@.players == old(self)@.players.remove(pos));
        assert(old(self)@.players.contains(uid));
        true
    }

    /// The evaluator cards of a player's hole cards.
    pub fn hole_cards_eval(&self, uid: u64) -> (r: Vec<EvalCard>)
        ensures
            r@ == eval_cards(self@.hole(uid)),
    {
        match self.hole_cards.get(&uid) {
            Some(cards) => ints_to_eval(cards),
            None => {
                let r: Vec<EvalCard> = Vec::new();
                assert(r@ =~= eval_cards(Seq::empty()));
                r
            }
        }
    }

    /// The evaluator cards of the community cards.
    pub fn community_cards_eval(&self) -> (r: Vec<EvalCard>)
        ensures
            r@ == eval_cards(self@.community_cards),
    {
        ints_to_eval(&self.community_cards)
    }

    /// A player's hole cards followed by the community cards.
    pub fn all_cards_for_player(&self, uid: u64) -> (r: Vec<EvalCard>)
        ensures
            r@ == eval_cards(self@.hole(uid)) + eval_cards(self@.community_cards),
    {
        let mut all = self.hole_cards_eval(uid);
        let mut community = self.community_cards_eval();
        all.append(&mut community);
        all
    }
}

/// The evaluator cards of card numbers.
pub fn ints_to_eval(cards: &Vec<u8>) -> (r: Vec<EvalCard>)
    ensures
        r@ == eval_cards(cards@),
{
    let mut r: Vec<EvalCard> = Vec::new();
    let mut i: usize = 0;
    while i < cards.len()
        invariant
            i <= cards@.len(),
            r@ == eval_cards(cards@.take(i as int)),
        decreases cards.len() - i,
    {
        let e = card_tuple_to_eval(int_to_card(cards[i]));
        r.push(e);
        assert(eval_cards(cards@.take(i + 1)) =~= eval_cards(cards@.take(i as int)).push(eval_of_int(cards@[i as int])));
        i = i + 1;
    }
    assert(cards@.take(cards@.len() as int) =~= cards@);
    r
}

/// Whether a user id is the bot's.
pub fn is_bot(uid: u64) -> (r: bool)
    ensures
        r == (uid == BOT_USER_ID),
{
    uid == BOT_USER_ID
}

/// The player `offset` seats after the dealer, round the table.
pub fn position_after_dealer(state: &PokerGameState, offset: usize) -> (r: Option<u64>)
    requires
        state@.players.len() > 0 ==> state.dealer_index + offset <= usize::MAX,
    ensures
        r == if state@.players.len() == 0 {
            None
        } else {
            Some(state@.players[((state.dealer_index + offset) % (state@.players.len() as int))])
        },
{
    if state.players.len() == 0 {
        return None;
    }
    let idx = (state.dealer_index + offset) % state.players.len();
    Some(state.players[idx])
}

/// The first active player after the dealer: the active player after the
/// dealer's place among the active players, or the first active player
/// when the dealer has folded; none when nobody is active.
pub fn next_active_after_dealer(state: &PokerGameState) -> (r: Option<u64>)
    requires
        state.dealer_index < state@.players.len(),
    ensures
        ({
            let a = state@.active();
            let d = state@.players[state.dealer_index as int];
            &&& a.contains(d) ==> exists|p: int| #![trigger a[p]] 0 <= p < a.len() && a[p] == d
                && (forall|j: int| 0 <= j < p ==> a[j] != d)
                && r == Some(a[(p + 1) % (a.len() as int)])
            &&& !a.contains(d) ==> r == (if a.len() > 0 { Some(a[0]) } else { None })
        }),
{
    let active = state.active_players();
    let dealer = state.players[state.dealer_index];
    let mut i: usize = 0;
    while i < active.len()
        invariant
            active@ == state@.active(),
            state.dealer_index < state@.players.len(),
            dealer == state@.players[state.dealer_index as int],
            i <= active@.len(),
            forall|j: int| 0 <= j < i ==> active@[j] != dealer,
        decreases active.len() - i,
    {
        if active[i] == dealer {
            let r = Some(active[(i + 1) % active.len()]);
            proof {
                let a = state@.active();
                let p = i as int;
                assert(a[p] == dealer);
                assert(0 <= p < a.len() && a[p] == dealer
                    && (forall|j: int| 0 <= j < p ==> a[j] != dealer)
                    && r == Some(a[(p + 1) % (a.len() as int)]));
                assert(a.contains(dealer));
            }
            return r;
        }
        i = i + 1;
    }
    assert(!active@.contains(dealer));
    if active.len() > 0 {
        Some(active[0])
    } else {
        None
    }
}

/// The storage key of the table in a guild's channel: `poker_state_<gid>_<cid>`.
pub fn state_key(gid: u64, cid: u64) -> (r: String)
    ensures
        r@ == "poker_state_"@ + dec(gid as nat) + "_"@ + dec(cid as nat),
{
    let mut r = String::from_str("poker_state_");
    push_dec(&mut r, gid);
    r.append("_");
    push_dec(&mut r, cid);
    r
}

} // verus!
