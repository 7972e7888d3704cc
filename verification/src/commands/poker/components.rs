//! The buttons of a poker table: the ids they carry and how those ids are read back.

use vstd::prelude::*;

use crate::commands::poker::flow::{PlayerAction, action_of_name};
use crate::text::{
    dec, lemma_dec_no_colon, lemma_parse_dec, lemma_split_on_concat, lemma_split_on_no_sep, parse_unsigned,
    parse_u64, push_dec, split_char, split_on, str_eq, str_views,
};

verus! {

/// What a poker button asks for. Its id reads
/// `poker:<action>:<gid>:<cid>[:<uid>[:<amount>]]`, where `uid` is the
/// player the button was rendered for.
#[derive(Debug, Clone, Copy, PartialEq, Eq, Structural)]
pub enum PokerComponent {
    Join { gid: u64, cid: u64 },
    Start { gid: u64, cid: u64 },
    ShowCards { gid: u64, cid: u64, uid: u64 },
    Action { gid: u64, cid: u64, uid: u64, action: PlayerAction, amount: Option<u64> },
}

/// Why a poker button id could not be read.
#[derive(Debug, Clone, Copy, PartialEq, Eq, Structural)]
pub enum ComponentError {
    InvalidGuildId,
    InvalidChannelId,
    InvalidUserId,
    InvalidRaiseAmount,
}

/// The message of each reading error.
pub open spec fn component_error_text(e: ComponentError) -> Seq<char> {
    match e {
        ComponentError::InvalidGuildId => "Invalid guild id"@,
        ComponentError::InvalidChannelId => "Invalid channel id"@,
        ComponentError::InvalidUserId => "Invalid user id"@,
        ComponentError::InvalidRaiseAmount => "Invalid raise amount"@,
    }
}

impl ComponentError {
    /// The message of the error.
    pub fn message(&self) -> (r: &'static str)
        ensures
            r@ == component_error_text(*self),
    {
        match self {
            ComponentError::InvalidGuildId => "Invalid guild id",
            ComponentError::InvalidChannelId => "Invalid channel id",
            ComponentError::InvalidUserId => "Invalid user id",
            ComponentError::InvalidRaiseAmount => "Invalid raise amount",
        }
    }
}

/// An id read as a `u64`, as `str::parse` reads it.
pub open spec fn id_of(s: Seq<char>) -> Option<u64> {
    match parse_unsigned(s, u64::MAX as nat) {
        Some(v) => Some(v as u64),
        None => None,
    }
}

/// The rest of a player's button id once the ids of the guild and the
/// channel are read: `p` are the pieces of the id.
pub open spec fn parse_player_part(p: Seq<Seq<char>>, gid: u64, cid: u64) -> Result<Option<PokerComponent>, ComponentError> {
    if p[1] == "showcards"@ {
        if p.len() < 5 {
            Ok(None)
        } else {
            match id_of(p[4]) {
                None => Err(ComponentError::InvalidUserId),
                Some(uid) => Ok(Some(PokerComponent::ShowCards { gid, cid, uid })),
            }
        }
    } else {
        match action_of_name(p[1]) {
            None => Ok(None),
            Some(action) => if p.len() < 5 {
                Ok(None)
            } else {
                match id_of(p[4]) {
                    None => Err(ComponentError::InvalidUserId),
                    Some(uid) => if action == PlayerAction::Raise {
                        if p.len() < 6 {
                            Ok(None)
                        } else {
                            match id_of(p[5]) {
                                None => Err(ComponentError::InvalidRaiseAmount),
                                Some(amount) => Ok(Some(PokerComponent::Action { gid, cid, uid, action, amount: Some(amount) })),
                            }
                        }
                    } else {
                        Ok(Some(PokerComponent::Action { gid, cid, uid, action, amount: None }))
                    },
                }
            },
        }
    }
}

/// How a button id reads: `Ok(None)` for ids that are not poker buttons or
/// lack pieces, an error for a piece that is not a number where one belongs.
pub open spec fn parse_component(s: Seq<char>) -> Result<Option<PokerComponent>, ComponentError> {
    let p = split_on(s, ':');
    if p.len() < 4 || p[0] != "poker"@ {
        Ok(None)
    } else {
        match id_of(p[2]) {
            None => Err(ComponentError::InvalidGuildId),
            Some(gid) => match id_of(p[3]) {
                None => Err(ComponentError::InvalidChannelId),
                Some(cid) => if p[1] == "join"@ {
                    Ok(Some(PokerComponent::Join { gid, cid }))
                } else if p[1] == "start"@ {
                    Ok(Some(PokerComponent::Start { gid, cid }))
                } else {
                    parse_player_part(p, gid, cid)
                },
            },
        }
    }
}

/// Reads an id with `parse_u64`, in the shape of `id_of`.
fn read_id(s: &str) -> (r: Option<u64>)
    ensures
        r == id_of(s@),
{
    parse_u64(s)
}

/// Reads a poker button id.
pub fn parse_poker_custom_id(custom_id: &str) -> (r: Result<Option<PokerComponent>, ComponentError>)
    ensures
        r == parse_component(custom_id@),
{
    let parts = split_char(custom_id, ':');
    let ghost p = split_on(custom_id@, ':');
    proof {
        assert(str_views(parts@).len() == parts@.len());
    }
    if parts.len() < 4 {
        return Ok(None);
    }
    assert(forall|k: int| 0 <= k < parts@.len() ==> #[trigger] p[k] == parts@[k]@);
    if !str_eq(parts[0], "poker") {
        return Ok(None);
    }
    let gid = match read_id(parts[2]) {
        Some(g) => g,
        None => { return Err(ComponentError::InvalidGuildId); },
    };
    let cid = match read_id(parts[3]) {
        Some(c) => c,
        None => { return Err(ComponentError::InvalidChannelId); },
    };
    if str_eq(parts[1], "join") {
        return Ok(Some(PokerComponent::Join { gid, cid }));
    }
    if str_eq(parts[1], "start") {
        return Ok(Some(PokerComponent::Start { gid, cid }));
    }
    if str_eq(parts[1], "showcards") {
        if parts.len() < 5 {
            return Ok(None);
        }
        return match read_id(parts[4]) {
            Some(uid) => Ok(Some(PokerComponent::ShowCards { gid, cid, uid })),
            None => Err(ComponentError::InvalidUserId),
        };
    }
    let action = match PlayerAction::from_name(parts[1]) {
        Some(a) => a,
        None => { return Ok(None); },
    };
    if parts.len() < 5 {
        return Ok(None);
    }
    let uid = match read_id(parts[4]) {
        Some(u) => u,
        None => { return Err(ComponentError::InvalidUserId); },
    };
    let amount = match action {
        PlayerAction::Raise => {
            if parts.len() < 6 {
                return Ok(None);
            }
            match read_id(parts[5]) {
                Some(a) => Some(a),
                None => { return Err(ComponentError::InvalidRaiseAmount); },
            }
        },
        _ => None,
    };
    Ok(Some(PokerComponent::Action { gid, cid, uid, action, amount }))
}

// ---------------------------------------------------------------------------
// Writing button ids
// ---------------------------------------------------------------------------

/// Pieces joined by `:`.
pub open spec fn colon_join(p: Seq<Seq<char>>) -> Seq<char>
    decreases p.len(),
{
    if p.len() == 0 {
        Seq::empty()
    } else if p.len() == 1 {
        p[0]
    } else {
        colon_join(p.drop_last()) + seq![':'] + p.last()
    }
}

/// The action word of each action.
pub open spec fn action_word(a: PlayerAction) -> Seq<char> {
    match a {
        PlayerAction::Fold => "fold"@,
        PlayerAction::CheckCall => "checkcall"@,
        PlayerAction::Raise => "raise"@,
        PlayerAction::AllIn => "allin"@,
    }
}

/// The id of a lobby button (`join` or `start`).
pub open spec fn lobby_id(word: Seq<char>, gid: u64, cid: u64) -> Seq<char> {
    colon_join(seq!["poker"@, word, dec(gid as nat), dec(cid as nat)])
}

/// The id of a button rendered for player `uid`.
pub open spec fn player_id(word: Seq<char>, gid: u64, cid: u64, uid: u64) -> Seq<char> {
    colon_join(seq!["poker"@, word, dec(gid as nat), dec(cid as nat), dec(uid as nat)])
}

/// The id of a raise button rendered for player `uid`.
pub open spec fn raise_id(gid: u64, cid: u64, uid: u64, amount: u64) -> Seq<char> {
    colon_join(seq!["poker"@, "raise"@, dec(gid as nat), dec(cid as nat), dec(uid as nat), dec(amount as nat)])
}

/// The action word of an action.
pub fn action_name(a: PlayerAction) -> (r: &'static str)
    ensures
        r@ == action_word(a),
{
    match a {
        PlayerAction::Fold => "fold",
        PlayerAction::CheckCall => "checkcall",
        PlayerAction::Raise => "raise",
        PlayerAction::AllIn => "allin",
    }
}

/// Appends `:` and the decimal digits of `n`.
fn push_colon_dec(out: &mut String, n: u64)
    ensures
        final(out)@ == old(out)@ + seq![':'] + dec(n as nat),
{
    out.append(":");
    proof { reveal_strlit(":"); }
    push_dec(out, n);
    assert(final(out)@ =~= old(out)@ + seq![':'] + dec(n as nat));
}

/// `poker:<word>`.
fn id_head(word: &str) -> (r: String)
    ensures
        r@ == "poker"@ + seq![':'] + word@,
{
    let mut out = String::from_str("poker");
    out.append(":");
    proof { reveal_strlit(":"); }
    out.append(word);
    assert(out@ =~= "poker"@ + seq![':'] + word@);
    out
}

/// The id of the lobby's join button.
pub fn join_button_id(gid: u64, cid: u64) -> (r: String)
    ensures
        r@ == lobby_id("join"@, gid, cid),
{
    let mut out = id_head("join");
    push_colon_dec(&mut out, gid);
    push_colon_dec(&mut out, cid);
    proof { reveal_with_fuel(colon_join, 4); }
    assert(out@ =~= lobby_id("join"@, gid, cid));
    out
}

/// The id of the lobby's start button.
pub fn start_button_id(gid: u64, cid: u64) -> (r: String)
    ensures
        r@ == lobby_id("start"@, gid, cid),
{
    let mut out = id_head("start");
    push_colon_dec(&mut out, gid);
    push_colon_dec(&mut out, cid);
    proof { reveal_with_fuel(colon_join, 4); }
    assert(out@ =~= lobby_id("start"@, gid, cid));
    out
}

/// The id of the button that shows `uid` their cards.
pub fn show_cards_button_id(gid: u64, cid: u64, uid: u64) -> (r: String)
    ensures
        r@ == player_id("showcards"@, gid, cid, uid),
{
    let mut out = id_head("showcards");
    push_colon_dec(&mut out, gid);
    push_colon_dec(&mut out, cid);
    push_colon_dec(&mut out, uid);
    proof { reveal_with_fuel(colon_join, 5); }
    assert(out@ =~= player_id("showcards"@, gid, cid, uid));
    out
}

/// The id of the button for `action` rendered for `uid` (a raise button
/// also carries its amount: see `raise_button_id`).
pub fn action_button_id(gid: u64, cid: u64, uid: u64, action: PlayerAction) -> (r: String)
    ensures
        r@ == player_id(action_word(action), gid, cid, uid),
{
    let mut out = id_head(action_name(action));
    push_colon_dec(&mut out, gid);
    push_colon_dec(&mut out, cid);
    push_colon_dec(&mut out, uid);
    proof { reveal_with_fuel(colon_join, 5); }
    assert(out@ =~= player_id(action_word(action), gid, cid, uid));
    out
}

/// The id of the button raising by `amount`, rendered for `uid`.
pub fn raise_button_id(gid: u64, cid: u64, uid: u64, amount: u64) -> (r: String)
    ensures
        r@ == raise_id(gid, cid, uid, amount),
{
    let mut out = id_head("raise");
    push_colon_dec(&mut out, gid);
    push_colon_dec(&mut out, cid);
    push_colon_dec(&mut out, uid);
    push_colon_dec(&mut out, amount);
    proof { reveal_with_fuel(colon_join, 6); }
    assert(out@ =~= raise_id(gid, cid, uid, amount));
    out
}

// ---------------------------------------------------------------------------
// Reading back what was written
// ---------------------------------------------------------------------------

/// `s` holds no `:`.
pub open spec fn no_colon(s: Seq<char>) -> bool {
    forall|i: int| 0 <= i < s.len() ==> s[i] != ':'
}

/// Pieces without `:` joined by `:` split back into the same pieces.
pub proof fn lemma_split_colon_join(p: Seq<Seq<char>>)
    requires
        p.len() >= 1,
        forall|k: int| 0 <= k < p.len() ==> no_colon(#[trigger] p[k]),
    ensures
        split_on(colon_join(p), ':') == p,
    decreases p.len(),
{
    if p.len() == 1 {
        assert(no_colon(p[0]));
        lemma_split_on_no_sep(p[0], ':');
        assert(seq![p[0]] =~= p);
    } else {
        let q = p.drop_last();
        assert forall|k: int| 0 <= k < q.len() implies no_colon(#[trigger] q[k]) by {
            assert(q[k] == p[k]);
        }
        lemma_split_colon_join(q);
        lemma_split_on_concat(colon_join(q), p.last(), ':');
        assert(no_colon(p[p.len() - 1]));
        lemma_split_on_no_sep(p.last(), ':');
        assert(q + seq![p.last()] =~= p);
    }
}

/// The words of the buttons hold no `:` and differ from each other.
proof fn lemma_words()
    ensures
        no_colon("poker"@),
        no_colon("join"@),
        no_colon("start"@),
        no_colon("showcards"@),
        forall|a: PlayerAction| #[trigger] no_colon(action_word(a)),
        "join"@ != "start"@,
        "showcards"@ != "join"@,
        "showcards"@ != "start"@,
        forall|a: PlayerAction| action_word(a) != "join"@ && action_word(a) != "start"@
            && action_word(a) != "showcards"@ && #[trigger] action_of_name(action_word(a)) == Some(a),
        action_of_name("showcards"@) is None,
{
    reveal_strlit("poker");
    reveal_strlit("join");
    reveal_strlit("start");
    reveal_strlit("showcards");
    reveal_strlit("fold");
    reveal_strlit("checkcall");
    reveal_strlit("raise");
    reveal_strlit("allin");
    assert("join"@[0] != "start"@[0]);
    assert("showcards"@ != "join"@) by { assert("showcards"@.len() != "join"@.len()); }
    assert("showcards"@ != "start"@) by { assert("showcards"@.len() != "start"@.len()); }
    assert("fold"@ != "checkcall"@) by { assert("fold"@.len() != "checkcall"@.len()); }
    assert("fold"@ != "raise"@) by { assert("fold"@.len() != "raise"@.len()); }
    assert("fold"@ != "allin"@) by { assert("fold"@.len() != "allin"@.len()); }
    assert("checkcall"@ != "raise"@) by { assert("checkcall"@.len() != "raise"@.len()); }
    assert("checkcall"@ != "allin"@) by { assert("checkcall"@.len() != "allin"@.len()); }
    assert("raise"@ != "allin"@) by { assert("raise"@[0] != "allin"@[0]); }
    assert("fold"@ != "join"@) by { assert("fold"@[0] != "join"@[0]); }
    assert("fold"@ != "start"@) by { assert("fold"@.len() != "start"@.len()); }
    assert("fold"@ != "showcards"@) by { assert("fold"@.len() != "showcards"@.len()); }
    assert("checkcall"@ != "join"@) by { assert("checkcall"@.len() != "join"@.len()); }
    assert("checkcall"@ != "start"@) by { assert("checkcall"@.len() != "start"@.len()); }
    assert("checkcall"@ != "showcards"@) by { assert("checkcall"@[0] != "showcards"@[0]); }
    assert("raise"@ != "join"@) by { assert("raise"@.len() != "join"@.len()); }
    assert("raise"@ != "start"@) by { assert("raise"@[0] != "start"@[0]); }
    assert("raise"@ != "showcards"@) by { assert("raise"@.len() != "showcards"@.len()); }
    assert("allin"@ != "join"@) by { assert("allin"@.len() != "join"@.len()); }
    assert("allin"@ != "start"@) by { assert("allin"@[0] != "start"@[0]); }
    assert("allin"@ != "showcards"@) by { assert("allin"@.len() != "showcards"@.len()); }
}

/// Decimal digits hold no `:`.
proof fn lemma_dec_no_colon_piece(n: u64)
    ensures
        no_colon(dec(n as nat)),
{
    lemma_dec_no_colon(n as nat);
}

/// The join and start buttons of the lobby read back as what they were made for.
pub proof fn lemma_lobby_buttons_read_back(gid: u64, cid: u64)
    ensures
        parse_component(lobby_id("join"@, gid, cid)) == Ok::<Option<PokerComponent>, ComponentError>(Some(PokerComponent::Join { gid, cid })),
        parse_component(lobby_id("start"@, gid, cid)) == Ok::<Option<PokerComponent>, ComponentError>(Some(PokerComponent::Start { gid, cid })),
{
    lemma_words();
    lemma_dec_no_colon_piece(gid);
    lemma_dec_no_colon_piece(cid);
    lemma_parse_dec(gid as nat, u64::MAX as nat);
    lemma_parse_dec(cid as nat, u64::MAX as nat);
    let pj = seq!["poker"@, "join"@, dec(gid as nat), dec(cid as nat)];
    let ps = seq!["poker"@, "start"@, dec(gid as nat), dec(cid as nat)];
    assert(forall|k: int| 0 <= k < pj.len() ==> no_colon(#[trigger] pj[k]));
    assert(forall|k: int| 0 <= k < ps.len() ==> no_colon(#[trigger] ps[k]));
    lemma_split_colon_join(pj);
    lemma_split_colon_join(ps);
}

/// The buttons rendered for a player read back as what they were made for:
/// show-cards, fold, check/call and all-in buttons, and raise buttons with
/// their amount.
pub proof fn lemma_player_buttons_read_back(gid: u64, cid: u64, uid: u64, action: PlayerAction, amount: u64)
    ensures
        parse_component(player_id("showcards"@, gid, cid, uid))
            == Ok::<Option<PokerComponent>, ComponentError>(Some(PokerComponent::ShowCards { gid, cid, uid })),
        action != PlayerAction::Raise ==> parse_component(player_id(action_word(action), gid, cid, uid))
            == Ok::<Option<PokerComponent>, ComponentError>(Some(PokerComponent::Action { gid, cid, uid, action, amount: None })),
        parse_component(raise_id(gid, cid, uid, amount))
            == Ok::<Option<PokerComponent>, ComponentError>(Some(PokerComponent::Action {
                gid, cid, uid, action: PlayerAction::Raise, amount: Some(amount),
            })),
{
    lemma_words();
    lemma_dec_no_colon_piece(gid);
    lemma_dec_no_colon_piece(cid);
    lemma_dec_no_colon_piece(uid);
    lemma_dec_no_colon_piece(amount);
    lemma_parse_dec(gid as nat, u64::MAX as nat);
    lemma_parse_dec(cid as nat, u64::MAX as nat);
    lemma_parse_dec(uid as nat, u64::MAX as nat);
    lemma_parse_dec(amount as nat, u64::MAX as nat);
    let p1 = seq!["poker"@, "showcards"@, dec(gid as nat), dec(cid as nat), dec(uid as nat)];
    let p2 = seq!["poker"@, action_word(action), dec(gid as nat), dec(cid as nat), dec(uid as nat)];
    let p3 = seq!["poker"@, "raise"@, dec(gid as nat), dec(cid as nat), dec(uid as nat), dec(amount as nat)];
    assert("raise"@ == action_word(PlayerAction::Raise));
    assert(no_colon(action_word(action)));
    assert(forall|k: int| 0 <= k < p1.len() ==> no_colon(#[trigger] p1[k]));
    assert(forall|k: int| 0 <= k < p2.len() ==> no_colon(#[trigger] p2[k]));
    assert(forall|k: int| 0 <= k < p3.len() ==> no_colon(#[trigger] p3[k]));
    lemma_split_colon_join(p1);
    lemma_split_colon_join(p2);
    lemma_split_colon_join(p3);
}

} // verus!
