//! Playing the tricks, and settling the game once the cards are played: the
//! points taken, who goes up how many levels, and who leads the next game.

use vstd::prelude::*;

use crate::deck::Deck;
use crate::game_state::GameError;
use crate::game_state::initialize_phase::{reset_game, resets};
use crate::hands::{HandError, Hands};
use crate::message::{same_messages, MessageVariant};
use crate::scoring::{compute_level_deltas, window_bound, with_bonus, GameScoreResult, MaterializedScoringParameters, PartialGameScoreResult, ScoringError, POINTS_PER_DECK};
use crate::player::{advance_wraps, advanced_level, Player};
use crate::settings::{id_in, joined_messages, AdvancementPolicy, Friend, GameMode, KittyPenalty, MultipleJoinPolicy, PlayTakebackPolicy, PropagatedState, ThrowPenalty};
use crate::trick::round::{can_play_result, cards_sorted, max_unit_size, played_step, plays_points, point_cards, sort_cards, throw_settled, took_back_step, PlayedCards, TrickEnded};
use crate::trick::{all_in_suit, unit_sizable, units_size, PlayCards, Trick, TrickError, TrickUnit};
use crate::types::{card_points, effective_suit_of, number_points, occurrences, rank_successor, Card, PlayerID, Rank, Trump};

verus! {

/// How a finished game went for one player.
#[derive(Debug, Copy, Clone, PartialEq, Eq, Structural)]
pub struct PlayerGameFinishedResult {
    pub won_game: bool,
    pub is_defending: bool,
    pub is_landlord: bool,
    pub ranks_up: usize,
    pub confetti: bool,
    pub rank: Rank,
}

/// Whether a player at `rank` has to defend it to go past it: the last
/// rank, or the one just before no-trump when no-trump is last, unless the
/// policy lets everyone through; under `DefendPoints`, also a number that
/// carries points.
pub open spec fn must_defend(policy: AdvancementPolicy, rank: Rank, max_rank: Rank) -> bool {
    match policy {
        AdvancementPolicy::FullyUnrestricted => false,
        AdvancementPolicy::Unrestricted => rank == max_rank || (rank_successor(rank) == Some(max_rank) && max_rank == Rank::NoTrump),
        AdvancementPolicy::DefendPoints => {
            ||| rank == max_rank
            ||| (rank_successor(rank) == Some(max_rank) && max_rank == Rank::NoTrump)
            ||| (rank matches Rank::Number(n) && number_points(n) is Some)
        },
    }
}

/// Whether the climb stops at `rank` on step `idx`: a rank that must be
/// defended stops everyone but the defending team on its first step, and
/// stops the defending team at no-trump unless the landlord defended
/// no-trump.
pub open spec fn stops_at(policy: AdvancementPolicy, rank: Rank, max_rank: Rank, is_defending: bool, landlord_rank: Rank, idx: nat) -> bool {
    &&& must_defend(policy, rank, max_rank)
    &&& (!is_defending || idx > 0 || (rank == Rank::NoTrump && landlord_rank != Rank::NoTrump))
}

/// A climb of up to `bump - idx` more steps from `rank`: the rank reached,
/// the steps taken, whether a rank stopped the climb, and how many times
/// the climb went past the last rank and started over.
pub open spec fn climb(
    policy: AdvancementPolicy,
    rank: Rank,
    max_rank: Rank,
    is_defending: bool,
    landlord_rank: Rank,
    bump: nat,
    idx: nat,
) -> (Rank, nat, bool, nat)
    decreases bump - idx,
{
    if idx >= bump {
        (rank, 0, false, 0)
    } else if stops_at(policy, rank, max_rank, is_defending, landlord_rank, idx) {
        (rank, 0, true, 0)
    } else {
        let rest = climb(policy, advanced_level(rank, max_rank), max_rank, is_defending, landlord_rank, bump, idx + 1);
        (rest.0, rest.1 + 1, rest.2, rest.3 + (if advance_wraps(rank, max_rank) { 1nat } else { 0nat }))
    }
}

/// The parameters of settling levels at the end of a game.
pub struct LevelSettlement {
    pub non_landlord_level_bump: usize,
    pub landlord_level_bump: usize,
    pub landlord_won: bool,
    pub landlord: PlayerID,
    pub landlord_rank: Rank,
    pub advancement_policy: AdvancementPolicy,
    pub max_rank: Rank,
}

/// The climb of one player at the end of a game.
pub open spec fn player_climb(s: LevelSettlement, team: Seq<PlayerID>, p: Player) -> (Rank, nat, bool, nat) {
    let is_defending = team.contains(p.id);
    let bump = if is_defending { s.landlord_level_bump } else { s.non_landlord_level_bump };
    climb(s.advancement_policy, p.level, s.max_rank, is_defending, s.landlord_rank, bump as nat, 0)
}

/// The player after the game: the rank reached, one metalevel up for every
/// start over.
pub open spec fn player_after(s: LevelSettlement, team: Seq<PlayerID>, p: Player) -> Player {
    let c = player_climb(s, team, p);
    Player { level: c.0, metalevel: (p.metalevel + c.3) as usize, ..p }
}

/// What the players are told about one player: the new rank if it went up,
/// and the rank that stopped the climb if one did.
pub open spec fn player_messages(s: LevelSettlement, team: Seq<PlayerID>, p: Player) -> Seq<MessageVariant> {
    let c = player_climb(s, team, p);
    (if c.1 > 0 {
        seq![MessageVariant::RankAdvanced { player: p.id, new_rank: c.0 }]
    } else {
        Seq::empty()
    }) + (if c.2 {
        seq![MessageVariant::AdvancementBlocked { player: p.id, rank: c.0 }]
    } else {
        Seq::empty()
    })
}

/// How the game went for one player.
pub open spec fn player_result(s: LevelSettlement, team: Seq<PlayerID>, p: Player) -> PlayerGameFinishedResult {
    let c = player_climb(s, team, p);
    let is_defending = team.contains(p.id);
    PlayerGameFinishedResult {
        won_game: s.landlord_won == is_defending,
        is_defending,
        is_landlord: s.landlord == p.id,
        ranks_up: c.1 as usize,
        confetti: c.1 > 0 && s.landlord_won && is_defending && p.level == s.max_rank,
        rank: p.level,
    }
}

/// The messages about the first `k` players, in order.
pub open spec fn messages_upto(s: LevelSettlement, team: Seq<PlayerID>, ps: Seq<Player>, k: int) -> Seq<MessageVariant>
    decreases k,
{
    if k <= 0 {
        Seq::empty()
    } else {
        messages_upto(s, team, ps, k - 1) + player_messages(s, team, ps[k - 1])
    }
}

proof fn lemma_climb_bounds(
    policy: AdvancementPolicy,
    rank: Rank,
    max_rank: Rank,
    is_defending: bool,
    landlord_rank: Rank,
    bump: nat,
    idx: nat,
)
    ensures
        climb(policy, rank, max_rank, is_defending, landlord_rank, bump, idx).3 <= climb(policy, rank, max_rank, is_defending, landlord_rank, bump, idx).1,
        idx <= bump ==> climb(policy, rank, max_rank, is_defending, landlord_rank, bump, idx).1 <= bump - idx,
    decreases bump - idx,
{
    if idx < bump && !stops_at(policy, rank, max_rank, is_defending, landlord_rank, idx) {
        lemma_climb_bounds(policy, advanced_level(rank, max_rank), max_rank, is_defending, landlord_rank, bump, idx + 1);
    }
}

/// Whether the rank has to be defended.
fn must_defend_exec(policy: AdvancementPolicy, rank: Rank, max_rank: Rank) -> (r: bool)
    ensures
        r == must_defend(policy, rank, max_rank),
{
    let next_is_max = match rank.successor() {
        Some(next) => next == max_rank,
        None => false,
    };
    let last = rank == max_rank || (next_is_max && max_rank == Rank::NoTrump);
    match policy {
        AdvancementPolicy::FullyUnrestricted => false,
        AdvancementPolicy::Unrestricted => last,
        AdvancementPolicy::DefendPoints => last || match rank {
            Rank::Number(n) => n.points().is_some(),
            Rank::NoTrump => false,
        },
    }
}

fn team_contains(team: &[PlayerID], id: PlayerID) -> (r: bool)
    ensures
        r == team@.contains(id),
{
    let mut i: usize = 0;
    while i < team.len()
        invariant
            i <= team.len(),
            forall|j: int| 0 <= j < i ==> team@[j] != id,
        decreases team.len() - i,
    {
        if team[i] == id {
            return true;
        }
        i += 1;
    }
    false
}

/// Moves every player up the levels their side won, a step at a time, and
/// says how the game went for each. A rank that has to be defended stops
/// the climb (see `stops_at`). The messages name each player that went up
/// or was stopped, in the order of the players, and end with the results.
#[verifier::rlimit(60)]
#[verifier::spinoff_prover]
pub fn compute_player_level_deltas(players: &mut Vec<Player>, landlords_team: &[PlayerID], s: LevelSettlement) -> (r: Vec<MessageVariant>)
    requires
        forall|i: int| 0 <= i < old(players)@.len() ==> (#[trigger] old(players)@[i]).metalevel + s.landlord_level_bump + s.non_landlord_level_bump <= usize::MAX,
    ensures
        final(players)@.len() == old(players)@.len(),
        forall|i: int| 0 <= i < old(players)@.len() ==> (#[trigger] final(players)@[i]) == player_after(s, landlords_team@, old(players)@[i]),
        r@.len() > 0,
        r@.drop_last() == messages_upto(s, landlords_team@, old(players)@, old(players)@.len() as int),
        r@.last() matches MessageVariant::GameFinished { result } && result@ == Seq::new(
            old(players)@.len(),
            |i: int| (old(players)@[i].name, player_result(s, landlords_team@, old(players)@[i])),
        ),
{
    let ghost start = players@;
    let mut msgs: Vec<MessageVariant> = Vec::new();
    let mut results: Vec<(String, PlayerGameFinishedResult)> = Vec::new();
    let mut i: usize = 0;
    while i < players.len()
        invariant
            i <= players.len(),
            players@.len() == start.len(),
            forall|j: int| 0 <= j < start.len() ==> (#[trigger] start[j]).metalevel + s.landlord_level_bump + s.non_landlord_level_bump <= usize::MAX,
            forall|j: int| 0 <= j < i ==> (#[trigger] players@[j]) == player_after(s, landlords_team@, start[j]),
            forall|j: int| i <= j < start.len() ==> (#[trigger] players@[j]) == start[j],
            msgs@ == messages_upto(s, landlords_team@, start, i as int),
            results@ == Seq::new(i as nat, |j: int| (start[j].name, player_result(s, landlords_team@, start[j]))),
        decreases players.len() - i,
    {
        let mut player = players[i].clone();
        let ghost p0 = player;
        let is_defending = team_contains(landlords_team, player.id);
        let bump = if is_defending {
            s.landlord_level_bump
        } else {
            s.non_landlord_level_bump
        };
        let mut num_advances: usize = 0;
        let mut was_blocked = false;
        let initial_rank = player.rank();
        let mut bump_idx: usize = 0;
        proof {
            lemma_climb_bounds(s.advancement_policy, p0.level, s.max_rank, is_defending, s.landlord_rank, bump as nat, 0);
        }
        while bump_idx < bump
            invariant_except_break
                bump_idx <= bump,
                !was_blocked,
            invariant
                player.id == p0.id,
                player.name == p0.name,
                num_advances == bump_idx,
                p0.metalevel + s.landlord_level_bump + s.non_landlord_level_bump <= usize::MAX,
                bump == (if is_defending { s.landlord_level_bump } else { s.non_landlord_level_bump }),
                ({
                    let now = climb(s.advancement_policy, player.level, s.max_rank, is_defending, s.landlord_rank, bump as nat, bump_idx as nat);
                    let all = climb(s.advancement_policy, p0.level, s.max_rank, is_defending, s.landlord_rank, bump as nat, 0);
                    &&& all.0 == now.0
                    &&& all.1 == now.1 + num_advances
                    &&& all.2 == now.2
                    &&& all.3 + p0.metalevel == now.3 + player.metalevel
                    &&& player.metalevel <= p0.metalevel + num_advances
                }),
            ensures
                ({
                    let all = climb(s.advancement_policy, p0.level, s.max_rank, is_defending, s.landlord_rank, bump as nat, 0);
                    &&& all.0 == player.level
                    &&& all.1 == num_advances
                    &&& all.2 == was_blocked
                    &&& all.3 + p0.metalevel == player.metalevel
                }),
            decreases bump - bump_idx,
        {
            let rank = player.rank();
            let must = must_defend_exec(s.advancement_policy, rank, s.max_rank);
            let landlord_must_defend = must && rank == Rank::NoTrump;
            if must && (!is_defending || bump_idx > 0 || (landlord_must_defend && s.landlord_rank != Rank::NoTrump)) {
                was_blocked = true;
                break;
            }
            proof {
                lemma_climb_bounds(s.advancement_policy, advanced_level(rank, s.max_rank), s.max_rank, is_defending, s.landlord_rank, bump as nat, bump_idx as nat + 1);
            }
            player.advance(s.max_rank);
            num_advances += 1;
            bump_idx += 1;
        }
        if num_advances > 0 {
            msgs.push(MessageVariant::RankAdvanced { player: player.id, new_rank: player.rank() });
        }
        if was_blocked {
            msgs.push(MessageVariant::AdvancementBlocked { player: player.id, rank: player.rank() });
        }
        let result = PlayerGameFinishedResult {
            won_game: s.landlord_won == is_defending,
            is_defending,
            is_landlord: s.landlord == player.id,
            ranks_up: num_advances,
            confetti: num_advances > 0 && s.landlord_won && is_defending && initial_rank == s.max_rank,
            rank: initial_rank,
        };
        results.push((player.name.clone(), result));
        let ghost before = players@;
        players.set(i, player);
        proof {
            assert(players@[i as int] == player_after(s, landlords_team@, start[i as int]));
            assert(msgs@ =~= messages_upto(s, landlords_team@, start, i + 1));
            assert(results@ =~= Seq::new((i + 1) as nat, |j: int| (start[j].name, player_result(s, landlords_team@, start[j]))));
        }
        i += 1;
    }
    let ghost before = msgs@;
    msgs.push(MessageVariant::GameFinished { result: results });
    proof {
        assert(msgs@.drop_last() =~= before);
    }
    msgs
}


#[derive(Debug)]
pub struct PlayPhase {
    num_decks: usize,
    game_mode: GameMode,
    propagated: PropagatedState,
    hands: Hands,
    points: Vec<(PlayerID, Vec<Card>)>,
    penalties: Vec<(PlayerID, usize)>,
    kitty: Vec<Card>,
    landlord: PlayerID,
    landlords_team: Vec<PlayerID>,
    exchanger: PlayerID,
    trump: Trump,
    trick: Trick,
    last_trick: Option<Trick>,
    game_ended_early: bool,
    removed_cards: Vec<Card>,
    decks: Vec<Deck>,
    player_requested_reset: Option<PlayerID>,
}

/// The ids of the players, starting with the one at `start` and going round.
pub open spec fn rotation(players: Seq<Player>, start: int) -> Seq<PlayerID> {
    Seq::new(players.len(), |o: int| players[(start + o) % (players.len() as int)].id)
}

/// The points a card is worth.
pub open spec fn card_value(c: Card) -> int {
    match card_points(c) {
        Some(p) => p as int,
        None => 0,
    }
}

/// The points some cards are worth.
pub open spec fn cards_value(s: Seq<Card>) -> int
    decreases s.len(),
{
    if s.len() == 0 {
        0
    } else {
        cards_value(s.drop_last()) + card_value(s.last())
    }
}

/// The points taken by the players that `keep` picks.
pub open spec fn points_where(entries: Seq<(PlayerID, Vec<Card>)>, keep: spec_fn(PlayerID) -> bool) -> int
    decreases entries.len(),
{
    if entries.len() == 0 {
        0
    } else {
        points_where(entries.drop_last(), keep) + (if keep(entries.last().0) { cards_value(entries.last().1@) } else { 0 })
    }
}

/// The penalties, counted for the non-landlords' team: a penalty of a
/// player on the landlord's team adds to their points, any other takes away.
pub open spec fn penalty_adjustment(penalties: Seq<(PlayerID, usize)>, team: Seq<PlayerID>) -> int
    decreases penalties.len(),
{
    if penalties.len() == 0 {
        0
    } else {
        penalty_adjustment(penalties.drop_last(), team) + (if team.contains(penalties.last().0) {
            penalties.last().1 as int
        } else {
            -(penalties.last().1 as int)
        })
    }
}

/// All the penalties.
pub open spec fn penalty_total(penalties: Seq<(PlayerID, usize)>) -> int
    decreases penalties.len(),
{
    if penalties.len() == 0 {
        0
    } else {
        penalty_total(penalties.drop_last()) + penalties.last().1
    }
}

proof fn lemma_cards_value_nonneg(s: Seq<Card>)
    ensures
        cards_value(s) >= 0,
    decreases s.len(),
{
    if s.len() > 0 {
        lemma_cards_value_nonneg(s.drop_last());
    }
}

proof fn lemma_points_where_bounds(entries: Seq<(PlayerID, Vec<Card>)>, keep: spec_fn(PlayerID) -> bool)
    ensures
        0 <= points_where(entries, keep) <= points_where(entries, |id: PlayerID| true),
    decreases entries.len(),
{
    if entries.len() > 0 {
        lemma_points_where_bounds(entries.drop_last(), keep);
        lemma_cards_value_nonneg(entries.last().1@);
    }
}

proof fn lemma_penalty_bounds(penalties: Seq<(PlayerID, usize)>, team: Seq<PlayerID>)
    ensures
        -penalty_total(penalties) <= penalty_adjustment(penalties, team) <= penalty_total(penalties),
        penalty_total(penalties) >= 0,
    decreases penalties.len(),
{
    if penalties.len() > 0 {
        lemma_penalty_bounds(penalties.drop_last(), team);
    }
}

/// The points of some cards.
fn value_of(cards: &Vec<Card>) -> (r: usize)
    requires
        cards_value(cards@) <= usize::MAX,
    ensures
        r == cards_value(cards@),
{
    let mut total: usize = 0;
    let mut i: usize = 0;
    while i < cards.len()
        invariant
            i <= cards.len(),
            cards_value(cards@) <= usize::MAX,
            total == cards_value(cards@.subrange(0, i as int)),
        decreases cards.len() - i,
    {
        proof {
            assert(cards@.subrange(0, i + 1).drop_last() =~= cards@.subrange(0, i as int));
            lemma_cards_value_prefix(cards@, i + 1);
        }
        match cards[i].points() {
            Some(p) => {
                total = total + p;
            },
            None => {},
        }
        i += 1;
    }
    assert(cards@.subrange(0, cards.len() as int) =~= cards@);
    total
}

proof fn lemma_points_prefix(s: Seq<(PlayerID, Vec<Card>)>, k: int, all: spec_fn(PlayerID) -> bool)
    requires
        0 <= k <= s.len(),
        all == (|id: PlayerID| true),
    ensures
        points_where(s.subrange(0, k), all) <= points_where(s, all),
    decreases s.len() - k,
{
    if k < s.len() {
        lemma_points_prefix(s, k + 1, all);
        assert(s.subrange(0, k + 1).drop_last() =~= s.subrange(0, k));
        lemma_cards_value_nonneg(s[k].1@);
    } else {
        assert(s.subrange(0, k) =~= s);
    }
}

proof fn lemma_penalty_prefix(s: Seq<(PlayerID, usize)>, k: int)
    requires
        0 <= k <= s.len(),
    ensures
        penalty_total(s.subrange(0, k)) <= penalty_total(s),
    decreases s.len() - k,
{
    if k < s.len() {
        lemma_penalty_prefix(s, k + 1);
        assert(s.subrange(0, k + 1).drop_last() =~= s.subrange(0, k));
    } else {
        assert(s.subrange(0, k) =~= s);
    }
}

proof fn lemma_cards_value_prefix(s: Seq<Card>, k: int)
    requires
        0 <= k <= s.len(),
    ensures
        cards_value(s.subrange(0, k)) <= cards_value(s),
    decreases s.len() - k,
{
    if k < s.len() {
        lemma_cards_value_prefix(s, k + 1);
        assert(s.subrange(0, k + 1).drop_last() =~= s.subrange(0, k));
        lemma_cards_value_nonneg(s.subrange(0, k));
    } else {
        assert(s.subrange(0, k) =~= s);
    }
}

/// The ids of the players, starting with the one at `start` and going round.
fn rotation_from(players: &[Player], start: usize) -> (r: Vec<PlayerID>)
    requires
        start < players.len(),
    ensures
        r@ == rotation(players@, start as int),
{
    let n = players.len();
    let mut out: Vec<PlayerID> = Vec::new();
    let mut o: usize = 0;
    while o < n
        invariant
            o <= n,
            n == players.len(),
            start < n,
            out@ == rotation(players@, start as int).subrange(0, o as int),
        decreases n - o,
    {
        let idx = if o < n - start {
            start + o
        } else {
            o - (n - start)
        };
        proof {
            if o < n - start {
                vstd::arithmetic::div_mod::lemma_small_mod((start + o) as nat, n as nat);
            } else {
                vstd::arithmetic::div_mod::lemma_mod_add_multiples_vanish((o - (n - start)) as int, n as int);
                vstd::arithmetic::div_mod::lemma_small_mod((o - (n - start)) as nat, n as nat);
            }
            assert(idx as int == (start + o) % (n as int));
        }
        out.push(players[idx].id);
        o += 1;
        assert(out@ =~= rotation(players@, start as int).subrange(0, o as int));
    }
    assert(rotation(players@, start as int).subrange(0, n as int) =~= rotation(players@, start as int));
    out
}

impl PlayPhase {
    pub closed spec fn propagated_spec(self) -> PropagatedState {
        self.propagated
    }

    pub closed spec fn hands_spec(self) -> Hands {
        self.hands
    }

    pub closed spec fn trick_spec(self) -> Trick {
        self.trick
    }

    pub closed spec fn points_spec(self) -> Seq<(PlayerID, Vec<Card>)> {
        self.points@
    }

    pub closed spec fn penalties_spec(self) -> Seq<(PlayerID, usize)> {
        self.penalties@
    }

    pub closed spec fn kitty_spec(self) -> Seq<Card> {
        self.kitty@
    }

    pub closed spec fn kitty_cards(self) -> Vec<Card> {
        self.kitty
    }

    pub closed spec fn landlord_spec(self) -> PlayerID {
        self.landlord
    }

    pub closed spec fn team_spec(self) -> Seq<PlayerID> {
        self.landlords_team@
    }

    pub closed spec fn exchanger_spec(self) -> PlayerID {
        self.exchanger
    }

    pub closed spec fn trump_spec(self) -> Trump {
        self.trump
    }

    pub closed spec fn game_mode_spec(self) -> GameMode {
        self.game_mode
    }

    pub closed spec fn num_decks_spec(self) -> usize {
        self.num_decks
    }

    pub closed spec fn ended_early(self) -> bool {
        self.game_ended_early
    }

    pub closed spec fn reset_requested_by(self) -> Option<PlayerID> {
        self.player_requested_reset
    }

    pub closed spec fn last_trick_spec(self) -> Option<Trick> {
        self.last_trick
    }

    /// The trick and the hands are well formed.
    pub closed spec fn wf(self) -> bool {
        &&& self.trick.wf()
        &&& self.hands.wf()
    }

    /// The play starts with the landlord leading the first trick, no points
    /// taken and no penalties.
    pub fn new(
        propagated: PropagatedState,
        num_decks: usize,
        game_mode: GameMode,
        hands: Hands,
        kitty: Vec<Card>,
        trump: Trump,
        landlord: PlayerID,
        exchanger: PlayerID,
        landlords_team: Vec<PlayerID>,
        removed_cards: Vec<Card>,
        decks: Vec<Deck>,
    ) -> (r: Result<Self, GameError>)
        requires
            hands.wf(),
        ensures
            !id_in(propagated.players_spec(), landlord) <==> r is Err,
            r is Err ==> r == Err::<Self, GameError>(GameError::PlayerNotFound),
            r matches Ok(p) ==> {
                &&& p.wf()
                &&& p.propagated_spec() == propagated
                &&& p.hands_spec() == hands
                &&& p.kitty_spec() == kitty@
                &&& p.trump_spec() == trump
                &&& p.landlord_spec() == landlord
                &&& p.team_spec() == landlords_team@
                &&& p.game_mode_spec() == game_mode
                &&& p.num_decks_spec() == num_decks
                &&& !p.ended_early()
                &&& p.reset_requested_by() is None
                &&& p.last_trick_spec() is None
                &&& p.points_spec().len() == propagated.players_spec().len()
                &&& forall|i: int| 0 <= i < p.points_spec().len() ==> (#[trigger] p.points_spec()[i]).0 == propagated.players_spec()[i].id
                    && p.points_spec()[i].1@.len() == 0
                &&& p.penalties_spec().len() == propagated.players_spec().len()
                &&& forall|i: int| 0 <= i < p.penalties_spec().len() ==> (#[trigger] p.penalties_spec()[i]) == (propagated.players_spec()[i].id, 0usize)
                &&& exists|k: int| is_first_landlord_position(propagated.players_spec(), landlord, k)
                    && p.trick_spec().queue() == rotation(propagated.players_spec(), k)
                &&& p.trick_spec().plays().len() == 0
                &&& p.trick_spec().trump_spec() == trump
            },
    {
        let players = propagated.players();
        let mut landlord_idx: usize = 0;
        let mut found = false;
        while landlord_idx < players.len()
            invariant_except_break
                !found,
            invariant
                landlord_idx <= players.len(),
                forall|j: int| 0 <= j < landlord_idx ==> players@[j].id != landlord,
            ensures
                found ==> landlord_idx < players.len() && players@[landlord_idx as int].id == landlord,
                !found ==> landlord_idx == players.len(),
            decreases players.len() - landlord_idx,
        {
            if players[landlord_idx].id == landlord {
                found = true;
                break;
            }
            landlord_idx += 1;
        }
        if !found {
            proof {
                assert forall|j: int| 0 <= j < players@.len() implies (#[trigger] players@[j]).id != landlord by {}
            }
            return Err(GameError::PlayerNotFound);
        }
        let queue = rotation_from(players, landlord_idx);
        let mut points: Vec<(PlayerID, Vec<Card>)> = Vec::new();
        let mut penalties: Vec<(PlayerID, usize)> = Vec::new();
        let mut i: usize = 0;
        while i < players.len()
            invariant
                i <= players.len(),
                points@.len() == i,
                penalties@.len() == i,
                forall|j: int| 0 <= j < i ==> (#[trigger] points@[j]).0 == players@[j].id && points@[j].1@.len() == 0,
                forall|j: int| 0 <= j < i ==> (#[trigger] penalties@[j]) == (players@[j].id, 0usize),
            decreases players.len() - i,
        {
            points.push((players[i].id, Vec::new()));
            penalties.push((players[i].id, 0));
            i += 1;
        }
        let trick = Trick::new(trump, queue);
        proof {
            assert(is_first_landlord_position(propagated.players_spec(), landlord, landlord_idx as int));
        }
        Ok(PlayPhase {
            num_decks,
            game_mode,
            propagated,
            hands,
            points,
            penalties,
            kitty,
            landlord,
            landlords_team,
            exchanger,
            trump,
            trick,
            last_trick: None,
            game_ended_early: false,
            removed_cards,
            decks,
            player_requested_reset: None,
        })
    }

    pub fn add_observer(&mut self, name: String) -> (r: Result<PlayerID, GameError>)
        requires
            old(self).propagated_spec().next_id() < usize::MAX,
        ensures
            r is Err ==> *final(self) == *old(self),
            r is Err <==> crate::settings::name_in(old(self).propagated_spec().players_spec(), name@)
                || crate::settings::name_in(old(self).propagated_spec().observers_spec(), name@),
            r matches Ok(id) ==> id == PlayerID(old(self).propagated_spec().next_id())
                && final(self).propagated_spec().observers_spec() == old(self).propagated_spec().observers_spec().push(
                crate::settings::new_player(id, name)),
            final(self).propagated_spec().players_spec() == old(self).propagated_spec().players_spec(),
            final(self).wf() == old(self).wf(),
    {
        match self.propagated.add_observer(name) {
            Ok(id) => Ok(id),
            Err(e) => Err(GameError::Settings { source: e }),
        }
    }

    pub fn remove_observer(&mut self, id: PlayerID) -> (r: Result<(), GameError>)
        ensures
            r is Ok,
            final(self).propagated_spec().observers_spec() == crate::settings::without_id(old(self).propagated_spec().observers_spec(), id),
            final(self).propagated_spec().players_spec() == old(self).propagated_spec().players_spec(),
            final(self).wf() == old(self).wf(),
    {
        match self.propagated.remove_observer(id) {
            Ok(()) => Ok(()),
            Err(e) => Err(GameError::Settings { source: e }),
        }
    }

    /// The player whose turn it is in the trick.
    pub fn next_player(&self) -> (r: Result<PlayerID, GameError>)
        ensures
            self.trick_spec().queue().len() > 0 ==> r == Ok::<PlayerID, GameError>(self.trick_spec().queue()[0]),
            self.trick_spec().queue().len() == 0 ==> r == Err::<PlayerID, GameError>(GameError::NotYourTurn),
    {
        match self.trick.next_player() {
            Some(id) => Ok(id),
            None => Err(GameError::NotYourTurn),
        }
    }

    pub fn game_mode(&self) -> (r: &GameMode)
        ensures
            *r == self.game_mode_spec(),
    {
        &self.game_mode
    }

    pub fn landlords_team(&self) -> (r: &[PlayerID])
        ensures
            r@ == self.team_spec(),
    {
        self.landlords_team.as_slice()
    }

    pub fn trick(&self) -> (r: &Trick)
        ensures
            *r == self.trick_spec(),
    {
        &self.trick
    }

    pub fn hands(&self) -> (r: &Hands)
        ensures
            *r == self.hands_spec(),
    {
        &self.hands
    }

    pub fn propagated(&self) -> (r: &PropagatedState)
        ensures
            *r == self.propagated_spec(),
    {
        &self.propagated
    }

    pub fn propagated_mut(&mut self) -> (r: &mut PropagatedState)
        ensures
            *r == old(self).propagated_spec(),
            final(self).propagated_spec() == *final(r),
            final(self).trick_spec() == old(self).trick_spec(),
            final(self).hands_spec() == old(self).hands_spec(),
            final(self).wf() == old(self).wf(),
    {
        &mut self.propagated
    }

    /// Whether the player may play the cards now (throws are not checked).
    pub fn can_play_cards(&self, id: PlayerID, cards: &[Card]) -> (r: Result<(), GameError>)
        requires
            self.wf(),
        ensures
            self.ended_early() ==> r == Err::<(), GameError>(GameError::GameAlreadyEnded),
            !self.ended_early() ==> (r matches Err(e) ==> e is Trick),
            !self.ended_early() && !self.hands_spec().has_player(id) ==> r == Err::<(), GameError>(
                GameError::Trick { source: TrickError::HandError { source: HandError::NotAPlayer } },
            ),
            !self.ended_early() && self.hands_spec().has_player(id) && !self.hands_spec().holds(id, cards@) ==> r == Err::<(), GameError>(
                GameError::Trick { source: TrickError::HandError { source: HandError::NotEnoughCards } },
            ),
            !self.ended_early() && self.hands_spec().has_player(id) && self.hands_spec().holds(id, cards@) && self.trick_spec().format() is None
                ==> (r is Ok <==> cards.len() > 0 && all_in_suit(self.trick_spec().trump_spec(), cards@, effective_suit_of(self.trick_spec().trump_spec(), cards@[0]))),
            !self.ended_early() && self.hands_spec().has_player(id) && self.hands_spec().holds(id, cards@) ==> (self.trick_spec().format() matches Some(tf)
                ==> (cards.len() != units_size(tf.units@) ==> r is Err)),
    {
        if self.game_ended_early {
            return Err(GameError::GameAlreadyEnded);
        }
        match self.trick.can_play_cards(id, &self.hands, cards, self.propagated.trick_draw_policy()) {
            Ok(()) => Ok(()),
            Err(e) => Err(GameError::Trick { source: e }),
        }
    }

    /// Plays cards for the player whose turn it is; when the room hides the
    /// cards played, the messages show them as unknown cards.
    pub fn play_cards_with_hint(&mut self, id: PlayerID, cards: &[Card], format_hint: Option<&[TrickUnit]>) -> (r: Result<Vec<MessageVariant>, GameError>)
        requires
            old(self).wf(),
            format_hint matches Some(p) ==> forall|i: int| 0 <= i < p.len() ==> unit_sizable(#[trigger] p@[i]),
        ensures
            final(self).wf(),
            old(self).ended_early() ==> r == Err::<Vec<MessageVariant>, GameError>(GameError::GameAlreadyEnded),
            r is Err ==> *final(self) == *old(self),
            !old(self).ended_early() && old(self).follows_legally(id, cards@) ==> r is Ok,
            r is Ok ==> {
                &&& !old(self).ended_early()
                &&& played_step(old(self).trick_spec(), final(self).trick_spec(), old(self).hands_spec(), final(self).hands_spec(), id, cards@,
                    old(self).propagated_spec().hides_throw_halting_player())
                &&& old(self).trick_spec().format() is None ==> throw_settled(old(self).trick_spec(), final(self).trick_spec(), old(self).hands_spec(),
                    old(self).propagated_spec().hides_throw_halting_player())
                &&& final(self).propagated_spec() == old(self).propagated_spec()
                &&& final(self).points_spec() == old(self).points_spec()
                &&& final(self).penalties_spec() == old(self).penalties_spec()
                &&& final(self).team_spec() == old(self).team_spec()
            },
            r matches Ok(msgs) ==> old(self).propagated_spec().hides_played_cards() ==> forall|i: int| 0 <= i < msgs.len() ==> shows_no_cards(#[trigger] msgs@[i]),
    {
        if self.game_ended_early {
            return Err(GameError::GameAlreadyEnded);
        }
        let args = PlayCards {
            id,
            cards,
            trick_draw_policy: self.propagated.trick_draw_policy(),
            throw_eval_policy: self.propagated.throw_evaluation_policy(),
            format_hint,
            hide_throw_halting_player: self.propagated.hide_throw_halting_player(),
        };
        let msgs = match self.trick.play_cards(args, &mut self.hands) {
            Ok(m) => m,
            Err(e) => {
                return Err(GameError::Trick { source: e });
            },
        };
        if self.propagated.played_cards_hidden() {
            Ok(hide_cards(msgs))
        } else {
            Ok(msgs)
        }
    }

    pub fn play_cards(&mut self, id: PlayerID, cards: &[Card]) -> (r: Result<Vec<MessageVariant>, GameError>)
        requires
            old(self).wf(),
        ensures
            final(self).wf(),
            old(self).ended_early() ==> r == Err::<Vec<MessageVariant>, GameError>(GameError::GameAlreadyEnded),
            r is Err ==> *final(self) == *old(self),
            !old(self).ended_early() && old(self).follows_legally(id, cards@) ==> r is Ok,
            r is Ok ==> {
                &&& !old(self).ended_early()
                &&& played_step(old(self).trick_spec(), final(self).trick_spec(), old(self).hands_spec(), final(self).hands_spec(), id, cards@,
                    old(self).propagated_spec().hides_throw_halting_player())
                &&& final(self).propagated_spec() == old(self).propagated_spec()
                &&& final(self).points_spec() == old(self).points_spec()
                &&& final(self).team_spec() == old(self).team_spec()
            },
    {
        self.play_cards_with_hint(id, cards, None)
    }

    /// Takes back the last play of the trick, if the player made it and the
    /// room allows it.
    pub fn take_back_cards(&mut self, id: PlayerID) -> (r: Result<(), GameError>)
        requires
            old(self).wf(),
            (old(self).trick_spec().plays().len() > 0 && old(self).trick_spec().plays().last().id == id) ==> {
                &&& old(self).hands_spec().has_player(id)
                &&& forall|c: Card| old(self).hands_spec().count(id, c) + occurrences(old(self).trick_spec().plays().last().cards@, c) <= usize::MAX
            },
        ensures
            final(self).wf(),
            old(self).ended_early() ==> r == Err::<(), GameError>(GameError::GameAlreadyEnded),
            !old(self).ended_early() && old(self).propagated_spec().play_takeback_policy_setting() == PlayTakebackPolicy::NoPlayTakeback
                ==> r == Err::<(), GameError>(GameError::PlayTakebackNotAllowed),
            !old(self).ended_early() && old(self).propagated_spec().play_takeback_policy_setting() != PlayTakebackPolicy::NoPlayTakeback
                ==> (r is Ok <==> (old(self).trick_spec().plays().len() > 0 && old(self).trick_spec().plays().last().id == id)),
            r is Err ==> *final(self) == *old(self),
            r is Ok ==> took_back_step(old(self).trick_spec(), final(self).trick_spec(), old(self).hands_spec(), final(self).hands_spec(), id),
    {
        if self.game_ended_early {
            return Err(GameError::GameAlreadyEnded);
        }
        if self.propagated.play_takeback_policy() == PlayTakebackPolicy::NoPlayTakeback {
            return Err(GameError::PlayTakebackNotAllowed);
        }
        match self.trick.take_back(id, &mut self.hands, self.propagated.throw_evaluation_policy()) {
            Ok(()) => Ok(()),
            Err(e) => Err(GameError::Trick { source: e }),
        }
    }

    /// The points of the non-landlords' team, with the penalties counted,
    /// and the points that everyone may see (all of them, unless the room
    /// hides the points of the landlord's team).
    pub fn calculate_points(&self) -> (r: (isize, isize))
        requires
            points_where(self.points_spec(), |id: PlayerID| true) + penalty_total(self.penalties_spec()) <= isize::MAX,
        ensures
            r.0 == points_where(self.points_spec(), |id: PlayerID| !self.team_spec().contains(id)) + penalty_adjustment(self.penalties_spec(), self.team_spec()),
            r.1 == points_where(self.points_spec(), |id: PlayerID| !self.propagated_spec().hides_landlord_points() || !self.team_spec().contains(id)),
    {
        let ghost team = self.team_spec();
        let ghost all = |id: PlayerID| true;
        let ghost not_team = |id: PlayerID| !team.contains(id);
        let ghost seen = |id: PlayerID| !self.propagated_spec().hides_landlord_points() || !team.contains(id);
        let hide = self.propagated.hide_landlord_points_setting();
        let mut non_landlords: usize = 0;
        let mut observed: usize = 0;
        let mut i: usize = 0;
        proof {
            lemma_penalty_bounds(self.penalties@, team);
            lemma_points_where_bounds(self.points@, all);
            assert(self.points@.subrange(0, 0) =~= Seq::<(PlayerID, Vec<Card>)>::empty());
        }
        while i < self.points.len()
            invariant
                i <= self.points.len(),
                team == self.landlords_team@,
                hide == self.propagated_spec().hides_landlord_points(),
                points_where(self.points@, all) + penalty_total(self.penalties@) <= isize::MAX,
                penalty_total(self.penalties@) >= 0,
                all == (|id: PlayerID| true),
                not_team == (|id: PlayerID| !team.contains(id)),
                seen == (|id: PlayerID| !self.propagated_spec().hides_landlord_points() || !team.contains(id)),
                non_landlords == points_where(self.points@.subrange(0, i as int), not_team),
                observed == points_where(self.points@.subrange(0, i as int), seen),
                points_where(self.points@.subrange(0, i as int), all) <= points_where(self.points@, all),
            decreases self.points.len() - i,
        {
            let ghost pre = self.points@.subrange(0, i as int);
            let ghost next = self.points@.subrange(0, i + 1);
            proof {
                assert(next.drop_last() =~= pre);
                lemma_points_prefix(self.points@, i + 1, all);
                lemma_points_where_bounds(next, not_team);
                lemma_points_where_bounds(next, seen);
                lemma_points_where_bounds(pre, all);
                lemma_cards_value_nonneg(self.points@[i as int].1@);
            }
            let in_team = team_contains(self.landlords_team.as_slice(), self.points[i].0);
            let v = value_of(&self.points[i].1);
            if !in_team {
                non_landlords = non_landlords + v;
            }
            if !hide || !in_team {
                observed = observed + v;
            }
            i += 1;
        }
        proof {
            assert(self.points@.subrange(0, self.points.len() as int) =~= self.points@);
            lemma_points_where_bounds(self.points@, not_team);
            lemma_points_where_bounds(self.points@, seen);
        }
        let mut total: isize = non_landlords as isize;
        let mut k: usize = 0;
        proof {
            assert(self.penalties@.subrange(0, 0) =~= Seq::<(PlayerID, usize)>::empty());
        }
        while k < self.penalties.len()
            invariant
                k <= self.penalties.len(),
                team == self.landlords_team@,
                0 <= non_landlords <= points_where(self.points@, all),
                points_where(self.points@, all) + penalty_total(self.penalties@) <= isize::MAX,
                total == non_landlords + penalty_adjustment(self.penalties@.subrange(0, k as int), team),
                penalty_total(self.penalties@.subrange(0, k as int)) <= penalty_total(self.penalties@),
            decreases self.penalties.len() - k,
        {
            proof {
                assert(self.penalties@.subrange(0, k + 1).drop_last() =~= self.penalties@.subrange(0, k as int));
                lemma_penalty_prefix(self.penalties@, k + 1);
                lemma_penalty_bounds(self.penalties@.subrange(0, k + 1), team);
            }
            let (id, penalty) = self.penalties[k];
            proof {
                let pre = self.penalties@.subrange(0, k as int);
                let next = self.penalties@.subrange(0, k + 1);
                assert(next.last() == (id, penalty));
                lemma_penalty_bounds(pre, team);
                assert(penalty_total(next) == penalty_total(pre) + penalty);
            }
            if penalty > 0 {
                if team_contains(self.landlords_team.as_slice(), id) {
                    total = total + penalty as isize;
                } else {
                    total = total - penalty as isize;
                }
            }
            k += 1;
        }
        proof {
            assert(self.penalties@.subrange(0, self.penalties.len() as int) =~= self.penalties@);
        }
        (total, observed as isize)
    }

    /// Whether the game is over: ended early, or every card played.
    pub fn game_finished(&self) -> (r: bool)
        requires
            self.wf(),
        ensures
            r == (self.ended_early() || (self.hands_spec().all_empty() && self.trick_spec().plays().len() == 0)),
    {
        self.game_ended_early || (self.hands.is_empty() && self.trick.played_cards().len() == 0)
    }

    /// Asks to reset the game: the first request is remembered, a second one
    /// from someone else resets the game.
    pub fn request_reset(&mut self, player: PlayerID) -> (r: Result<(Option<crate::game_state::InitializePhase>, Vec<MessageVariant>), GameError>)
        requires
            old(self).propagated_spec().can_recount(
                (old(self).propagated_spec().players_spec().len() + old(self).propagated_spec().observers_spec().len()) as int,
            ),
        ensures
            old(self).reset_requested_by() == Some(player) ==> (r matches Ok((None, v)) && v@.len() == 0) && *final(self) == *old(self),
            old(self).reset_requested_by() is None ==> (r matches Ok((None, v)) && v@ == seq![MessageVariant::ResetRequested])
                && final(self).reset_requested_by() == Some(player),
            (old(self).reset_requested_by() matches Some(p) && p != player) ==> *final(self) == *old(self) && match r {
                Ok((Some(init), msgs)) => resets(old(self).propagated_spec(), Ok((init, msgs))),
                Ok((None, _)) => false,
                Err(e) => resets(old(self).propagated_spec(), Err(e)),
            },
    {
        match self.player_requested_reset {
            Some(p) => {
                if p == player {
                    return Ok((None, Vec::new()));
                }
                match self.return_to_initialize() {
                    Ok((s, m)) => Ok((Some(s), m)),
                    Err(e) => Err(e),
                }
            },
            None => {
                self.player_requested_reset = Some(player);
                let mut msgs: Vec<MessageVariant> = Vec::new();
                msgs.push(MessageVariant::ResetRequested);
                Ok((None, msgs))
            },
        }
    }

    /// Withdraws a request to reset the game.
    pub fn cancel_reset(&mut self) -> (r: Option<MessageVariant>)
        ensures
            final(self).reset_requested_by() is None,
            old(self).reset_requested_by() is Some ==> r == Some(MessageVariant::ResetCanceled),
            old(self).reset_requested_by() is None ==> r is None,
    {
        if self.player_requested_reset.is_some() {
            self.player_requested_reset = None;
            return Some(MessageVariant::ResetCanceled);
        }
        None
    }

    /// Goes back to setting up, with every observer made a player (see
    /// `resets`).
    pub fn return_to_initialize(&self) -> (r: Result<(crate::game_state::InitializePhase, Vec<MessageVariant>), GameError>)
        requires
            self.propagated_spec().can_recount((self.propagated_spec().players_spec().len() + self.propagated_spec().observers_spec().len()) as int),
        ensures
            resets(self.propagated_spec(), r),
    {
        reset_game(&self.propagated)
    }
}

/// Whether the first player with the given id is at `k`.
pub open spec fn is_first_landlord_position(players: Seq<Player>, id: PlayerID, k: int) -> bool {
    &&& 0 <= k < players.len()
    &&& players[k].id == id
    &&& forall|j: int| 0 <= j < k ==> players[j].id != id
}

/// A message that shows no card faces.
pub open spec fn shows_no_cards(m: MessageVariant) -> bool {
    match m {
        MessageVariant::PlayedCards { cards } => forall|i: int| 0 <= i < cards.len() ==> cards@[i] == Card::Unknown,
        MessageVariant::ThrowFailed { original_cards, .. } => forall|i: int| 0 <= i < original_cards.len() ==> original_cards@[i] == Card::Unknown,
        _ => true,
    }
}

/// As many unknown cards as there are cards.
fn unknown_cards(n: usize) -> (r: Vec<Card>)
    ensures
        r@.len() == n,
        forall|i: int| 0 <= i < n ==> r@[i] == Card::Unknown,
{
    let mut v: Vec<Card> = Vec::new();
    let mut i: usize = 0;
    while i < n
        invariant
            i <= n,
            v@.len() == i,
            forall|j: int| 0 <= j < i ==> v@[j] == Card::Unknown,
        decreases n - i,
    {
        v.push(Card::Unknown);
        i += 1;
    }
    v
}

/// The messages with the faces of the cards played hidden.
fn hide_cards(msgs: Vec<MessageVariant>) -> (r: Vec<MessageVariant>)
    ensures
        r@.len() == msgs@.len(),
        forall|i: int| 0 <= i < r@.len() ==> shows_no_cards(#[trigger] r@[i]),
{
    let mut out: Vec<MessageVariant> = Vec::new();
    let mut msgs = msgs;
    let n = msgs.len();
    let mut i: usize = 0;
    let mut rest: Vec<MessageVariant> = Vec::new();
    while msgs.len() > 0
        invariant
            out@.len() + msgs@.len() == n,
            forall|j: int| 0 <= j < out@.len() ==> shows_no_cards(#[trigger] out@[j]),
        decreases msgs.len(),
    {
        let m = msgs.remove(0);
        let hidden = match m {
            MessageVariant::PlayedCards { cards } => MessageVariant::PlayedCards { cards: unknown_cards(cards.len()) },
            MessageVariant::ThrowFailed { original_cards, better_player } => MessageVariant::ThrowFailed {
                original_cards: unknown_cards(original_cards.len()),
                better_player,
            },
            other => other,
        };
        out.push(hidden);
    }
    out
}


/// A card of a play meets a friend called for: a friend with copies still
/// to skip counts one down; the copy that counts finds the friend, if not
/// found yet. The player joins the landlord's team, unless already on it:
/// then under `Unrestricted` the friend is found all the same (the player
/// joins twice), and under `NoDoubleJoin` nothing happens.
pub open spec fn friend_meets(f: Friend, card: Card, id: PlayerID, team: Seq<PlayerID>, policy: MultipleJoinPolicy)
    -> (Friend, Seq<PlayerID>, Seq<MessageVariant>) {
    if f.card != card {
        (f, team, Seq::empty())
    } else if f.skip != 0 {
        (Friend { skip: (f.skip - 1) as usize, ..f }, team, Seq::empty())
    } else if f.player_id is Some {
        (f, team, Seq::empty())
    } else if team.contains(id) {
        match policy {
            MultipleJoinPolicy::Unrestricted => (
                Friend { player_id: Some(id), ..f },
                team,
                seq![MessageVariant::JoinedTeam { player: id, already_joined: true }],
            ),
            MultipleJoinPolicy::NoDoubleJoin => (f, team, Seq::empty()),
        }
    } else {
        (Friend { player_id: Some(id), ..f }, team.push(id), seq![MessageVariant::JoinedTeam { player: id, already_joined: false }])
    }
}

/// A card meets the first `j` friends, one after the other.
pub open spec fn card_meets(friends: Seq<Friend>, j: int, card: Card, id: PlayerID, team: Seq<PlayerID>, policy: MultipleJoinPolicy)
    -> (Seq<Friend>, Seq<PlayerID>, Seq<MessageVariant>)
    decreases j,
{
    if j <= 0 {
        (friends, team, Seq::empty())
    } else {
        let prev = card_meets(friends, j - 1, card, id, team, policy);
        let step = friend_meets(prev.0[j - 1], card, id, prev.1, policy);
        (prev.0.update(j - 1, step.0), step.1, prev.2 + step.2)
    }
}

/// The first `i` cards of a play meet every friend.
pub open spec fn cards_meet(friends: Seq<Friend>, cards: Seq<Card>, i: int, id: PlayerID, team: Seq<PlayerID>, policy: MultipleJoinPolicy)
    -> (Seq<Friend>, Seq<PlayerID>, Seq<MessageVariant>)
    decreases i,
{
    if i <= 0 {
        (friends, team, Seq::empty())
    } else {
        let prev = cards_meet(friends, cards, i - 1, id, team, policy);
        let step = card_meets(prev.0, prev.0.len() as int, cards[i - 1], id, prev.1, policy);
        (step.0, step.1, prev.2 + step.2)
    }
}

/// The cards of the first `k` plays meet every friend, play after play.
pub open spec fn plays_meet(friends: Seq<Friend>, plays: Seq<PlayedCards>, k: int, team: Seq<PlayerID>, policy: MultipleJoinPolicy)
    -> (Seq<Friend>, Seq<PlayerID>, Seq<MessageVariant>)
    decreases k,
{
    if k <= 0 {
        (friends, team, Seq::empty())
    } else {
        let prev = plays_meet(friends, plays, k - 1, team, policy);
        let p = plays[k - 1];
        let step = cards_meet(prev.0, p.cards@, p.cards@.len() as int, p.id, prev.1, policy);
        (step.0, step.1, prev.2 + step.2)
    }
}

proof fn lemma_card_meets_len(friends: Seq<Friend>, j: int, card: Card, id: PlayerID, team: Seq<PlayerID>, policy: MultipleJoinPolicy)
    requires
        0 <= j <= friends.len(),
    ensures
        card_meets(friends, j, card, id, team, policy).0.len() == friends.len(),
        forall|x: int| j <= x < friends.len() ==> card_meets(friends, j, card, id, team, policy).0[x] == friends[x],
    decreases j,
{
    if j > 0 {
        lemma_card_meets_len(friends, j - 1, card, id, team, policy);
    }
}

/// Lets one card meet every friend.
fn meet_card(friends: &mut Vec<Friend>, team: &mut Vec<PlayerID>, msgs: &mut Vec<MessageVariant>, card: Card, id: PlayerID, policy: MultipleJoinPolicy)
    ensures
        ({
            let step = card_meets(old(friends)@, old(friends)@.len() as int, card, id, old(team)@, policy);
            &&& final(friends)@ == step.0
            &&& final(team)@ == step.1
            &&& final(msgs)@ == old(msgs)@ + step.2
        }),
{
    let ghost f0 = friends@;
    let ghost t0 = team@;
    let ghost m0 = msgs@;
    let mut j: usize = 0;
    while j < friends.len()
        invariant
            j <= friends.len(),
            friends@.len() == f0.len(),
            ({
                let step = card_meets(f0, j as int, card, id, t0, policy);
                &&& friends@ == step.0
                &&& team@ == step.1
                &&& msgs@ == m0 + step.2
            }),
        decreases friends.len() - j,
    {
        proof {
            lemma_card_meets_len(f0, j as int, card, id, t0, policy);
        }
        let f = friends[j];
        let ghost before = msgs@;
        if f.card == card {
            if f.skip == 0 {
                if f.player_id.is_none() {
                    let already = team_contains(team.as_slice(), id);
                    match policy {
                        MultipleJoinPolicy::Unrestricted => {
                            friends.set(j, Friend { player_id: Some(id), ..f });
                            if !already {
                                team.push(id);
                            }
                            msgs.push(MessageVariant::JoinedTeam { player: id, already_joined: already });
                        },
                        MultipleJoinPolicy::NoDoubleJoin => {
                            if !already {
                                friends.set(j, Friend { player_id: Some(id), ..f });
                                team.push(id);
                                msgs.push(MessageVariant::JoinedTeam { player: id, already_joined: false });
                            }
                        },
                    }
                }
            } else {
                friends.set(j, Friend { skip: f.skip - 1, ..f });
            }
        }
        proof {
            let prev = card_meets(f0, j as int, card, id, t0, policy);
            let step = friend_meets(prev.0[j as int], card, id, prev.1, policy);
            assert(prev.0[j as int] == f);
            assert(friends@ =~= prev.0.update(j as int, step.0));
            assert(msgs@ =~= m0 + (prev.2 + step.2));
        }
        j += 1;
    }
}

/// Lets every card of every play meet every friend, play after play.
fn meet_plays(friends: &mut Vec<Friend>, team: &mut Vec<PlayerID>, plays: &[PlayedCards], policy: MultipleJoinPolicy) -> (r: Vec<MessageVariant>)
    ensures
        ({
            let step = plays_meet(old(friends)@, plays@, plays@.len() as int, old(team)@, policy);
            &&& final(friends)@ == step.0
            &&& final(team)@ == step.1
            &&& r@ == step.2
        }),
{
    let ghost f0 = friends@;
    let ghost t0 = team@;
    let mut msgs: Vec<MessageVariant> = Vec::new();
    let mut k: usize = 0;
    while k < plays.len()
        invariant
            k <= plays.len(),
            ({
                let step = plays_meet(f0, plays@, k as int, t0, policy);
                &&& friends@ == step.0
                &&& team@ == step.1
                &&& msgs@ == step.2
            }),
        decreases plays.len() - k,
    {
        let cards = &plays[k].cards;
        let id = plays[k].id;
        let ghost fk = friends@;
        let ghost tk = team@;
        let ghost mk = msgs@;
        let mut i: usize = 0;
        while i < cards.len()
            invariant
                i <= cards.len(),
                ({
                    let step = cards_meet(fk, cards@, i as int, id, tk, policy);
                    &&& friends@ == step.0
                    &&& team@ == step.1
                    &&& msgs@ == mk + step.2
                }),
            decreases cards.len() - i,
        {
            let ghost before = msgs@;
            meet_card(friends, team, &mut msgs, cards[i], id, policy);
            proof {
                let prev = cards_meet(fk, cards@, i as int, id, tk, policy);
                let step = card_meets(prev.0, prev.0.len() as int, cards@[i as int], id, prev.1, policy);
                assert(msgs@ =~= mk + (prev.2 + step.2));
            }
            i += 1;
        }
        proof {
            let prev = plays_meet(f0, plays@, k as int, t0, policy);
            assert(plays@[k as int].cards@ == cards@);
            assert(plays@[k as int].id == id);
        }
        k += 1;
    }
    msgs
}


/// The factor by which the kitty's points count when the last trick takes
/// the kitty: twice the largest unit, or two to the power of it.
pub open spec fn kitty_multiplier(penalty: KittyPenalty, largest: int) -> int {
    match penalty {
        KittyPenalty::Times => 2 * largest,
        KittyPenalty::Power => vstd::arithmetic::power2::pow2(largest as nat) as int,
    }
}

/// The position of the first entry for a player.
pub open spec fn first_entry<V>(s: Seq<(PlayerID, V)>, id: PlayerID) -> Option<int>
    decreases s.len(),
{
    if s.len() == 0 {
        None
    } else if s[0].0 == id {
        Some(0)
    } else {
        match first_entry(s.drop_first(), id) {
            Some(k) => Some(k + 1),
            None => None,
        }
    }
}

/// Ten more penalty points for a player, in a new entry when the player
/// has none.
pub open spec fn penalize(s: Seq<(PlayerID, usize)>, id: PlayerID) -> Seq<(PlayerID, usize)> {
    match first_entry(s, id) {
        Some(k) => s.update(k, (id, (s[k].1 + 10) as usize)),
        None => s.push((id, 10usize)),
    }
}

/// The cards `n` times over.
pub open spec fn repeat_cards(s: Seq<Card>, n: nat) -> Seq<Card>
    decreases n,
{
    if n == 0 {
        Seq::empty()
    } else {
        repeat_cards(s, (n - 1) as nat) + s
    }
}

proof fn lemma_first_entry<V>(s: Seq<(PlayerID, V)>, id: PlayerID)
    ensures
        first_entry(s, id) matches Some(k) ==> 0 <= k < s.len() && s[k].0 == id && forall|j: int| 0 <= j < k ==> s[j].0 != id,
        first_entry(s, id) is None ==> forall|j: int| 0 <= j < s.len() ==> s[j].0 != id,
    decreases s.len(),
{
    if s.len() > 0 {
        lemma_first_entry(s.drop_first(), id);
        if s[0].0 != id {
            assert forall|j: int| 0 < j < s.len() implies s[j] == s.drop_first()[j - 1] by {}
        }
    }
}

/// The position of the first entry for a player.
fn find_entry<V>(s: &Vec<(PlayerID, V)>, id: PlayerID) -> (r: Option<usize>)
    ensures
        r matches Some(k) ==> first_entry(s@, id) == Some(k as int),
        r is None ==> first_entry(s@, id) is None,
{
    proof {
        lemma_first_entry(s@, id);
    }
    let mut i: usize = 0;
    while i < s.len()
        invariant
            i <= s.len(),
            forall|j: int| 0 <= j < i ==> s@[j].0 != id,
            first_entry(s@, id) matches Some(k) ==> 0 <= k < s.len() && s@[k].0 == id && forall|j: int| 0 <= j < k ==> s@[j].0 != id,
            first_entry(s@, id) is None ==> forall|j: int| 0 <= j < s.len() ==> s@[j].0 != id,
        decreases s.len() - i,
    {
        if s[i].0 == id {
            return Some(i);
        }
        i += 1;
    }
    None
}

/// The cards of a sequence that carry points.
fn point_cards_of(cards: &Vec<Card>) -> (r: Vec<Card>)
    ensures
        r@ == point_cards(cards@),
{
    let mut out: Vec<Card> = Vec::new();
    let mut i: usize = 0;
    while i < cards.len()
        invariant
            i <= cards.len(),
            out@ == point_cards(cards@.subrange(0, i as int)),
        decreases cards.len() - i,
    {
        proof {
            assert(cards@.subrange(0, i + 1).drop_last() =~= cards@.subrange(0, i as int));
        }
        if cards[i].points().is_some() {
            out.push(cards[i]);
        }
        i += 1;
        assert(out@ =~= point_cards(cards@.subrange(0, i as int)));
    }
    assert(cards@.subrange(0, cards.len() as int) =~= cards@);
    out
}

proof fn lemma_cards_value_append(a: Seq<Card>, b: Seq<Card>)
    ensures
        cards_value(a + b) == cards_value(a) + cards_value(b),
    decreases b.len(),
{
    if b.len() > 0 {
        lemma_cards_value_append(a, b.drop_last());
        assert((a + b).drop_last() =~= a + b.drop_last());
    } else {
        assert(a + b =~= a);
    }
}

proof fn lemma_repeat_value(s: Seq<Card>, n: nat)
    ensures
        cards_value(repeat_cards(s, n)) == n * cards_value(s),
    decreases n,
{
    if n == 0 {
        assert(repeat_cards(s, 0) =~= Seq::<Card>::empty());
    } else {
        let m = (n - 1) as nat;
        assert(repeat_cards(s, n) == repeat_cards(s, m) + s);
        lemma_repeat_value(s, m);
        lemma_cards_value_append(repeat_cards(s, m), s);
        let v = cards_value(s);
        assert(cards_value(repeat_cards(s, n)) == cards_value(repeat_cards(s, m)) + v);
        assert(m * v + v == n * v) by (nonlinear_arith)
            requires
                m + 1 == n,
        ;
    }
}

/// Two to the power of `e`.
fn pow2_exec(e: usize) -> (r: usize)
    requires
        vstd::arithmetic::power2::pow2(e as nat) <= usize::MAX,
    ensures
        r == vstd::arithmetic::power2::pow2(e as nat),
{
    let mut r: usize = 1;
    let mut i: usize = 0;
    proof {
        vstd::arithmetic::power2::lemma2_to64();
    }
    while i < e
        invariant
            i <= e,
            r == vstd::arithmetic::power2::pow2(i as nat),
            vstd::arithmetic::power2::pow2(e as nat) <= usize::MAX,
        decreases e - i,
    {
        proof {
            vstd::arithmetic::power2::lemma_pow2_unfold((i + 1) as nat);
            if i + 1 < e {
                vstd::arithmetic::power2::lemma_pow2_strictly_increases((i + 1) as nat, e as nat);
            }
        }
        r = r * 2;
        i += 1;
    }
    r
}

/// The same messages, comparing cards by their values.
pub open spec fn same_notices(a: Seq<MessageVariant>, b: Seq<MessageVariant>) -> bool {
    &&& a.len() == b.len()
    &&& forall|i: int| 0 <= i < a.len() ==> same_notice(#[trigger] a[i], b[i])
}

pub open spec fn same_notice(a: MessageVariant, b: MessageVariant) -> bool {
    match (a, b) {
        (MessageVariant::EndOfGameKittyReveal { cards: c1 }, MessageVariant::EndOfGameKittyReveal { cards: c2 }) => c1@ == c2@,
        _ => a == b,
    }
}

/// The error for a trick finished out of turn.
pub open spec fn out_of_order() -> GameError {
    GameError::Trick { source: TrickError::OutOfOrder }
}

impl PlayPhase {
    /// What the trick does to the friends and the landlord's team.
    pub open spec fn friends_outcome(self) -> (GameMode, Seq<PlayerID>, Seq<MessageVariant>) {
        match self.game_mode_spec() {
            GameMode::FindingFriends { num_friends, friends } => {
                let m = plays_meet(friends@, self.trick_spec().plays(), self.trick_spec().plays().len() as int, self.team_spec(),
                    self.propagated_spec().multiple_join_policy_setting());
                (self.game_mode_spec(), m.1, m.2)
            },
            GameMode::Tractor => (self.game_mode_spec(), self.team_spec(), Seq::empty()),
        }
    }

    /// The penalties once a failed throw is counted.
    pub open spec fn penalties_outcome(self) -> Seq<(PlayerID, usize)> {
        let plays = self.trick_spec().plays();
        if plays.len() > 0 && plays[0].bad_throw_cards@.len() > 0 && self.propagated_spec().throw_penalty_setting() == ThrowPenalty::TenPointsPerAttempt {
            penalize(self.penalties_spec(), plays[0].id)
        } else {
            self.penalties_spec()
        }
    }

    /// The kitty multiplier of the trick.
    pub open spec fn trick_multiplier(self) -> int {
        match self.trick_spec().format() {
            Some(tf) => kitty_multiplier(self.propagated_spec().kitty_penalty_setting(), max_unit_size(tf.units@)),
            None => 0,
        }
    }

    /// The point cards the winner of the trick takes: those played, and the
    /// kitty's, `trick_multiplier` times, once every hand is empty.
    pub open spec fn trick_points(self) -> Seq<Card> {
        plays_points(self.trick_spec().plays()) + (if self.hands_spec().all_empty() {
            repeat_cards(point_cards(self.kitty_spec()), self.trick_multiplier() as nat)
        } else {
            Seq::empty()
        })
    }

    /// The messages about the kitty at the end of the game.
    pub open spec fn kitty_notices(self) -> Seq<MessageVariant> {
        if self.hands_spec().all_empty() {
            (if self.propagated_spec().reveals_kitty_at_end() {
                seq![MessageVariant::EndOfGameKittyReveal { cards: self.kitty_cards() }]
            } else {
                Seq::empty()
            }) + (if point_cards(self.kitty_spec()).len() > 0 && self.trick_multiplier() > 0 {
                seq![MessageVariant::PointsInKitty { points: cards_value(point_cards(self.kitty_spec())) as usize, multiplier: self.trick_multiplier() as usize }]
            } else {
                Seq::empty()
            })
        } else {
            Seq::empty()
        }
    }

    /// The counts that finishing the trick works with fit a `usize`: the
    /// multiplier, the penalty of the first player, and the point cards
    /// taken.
    pub open spec fn finish_fits(self) -> bool {
        let taken = plays_points(self.trick_spec().plays()).len() + point_cards(self.kitty_spec()).len() * self.trick_multiplier();
        &&& self.trick_multiplier() <= usize::MAX
        &&& self.trick_spec().plays().len() > 0 ==> (first_entry(self.penalties_spec(), self.trick_spec().plays()[0].id) matches Some(k)
            ==> self.penalties_spec()[k].1 + 10 <= usize::MAX)
        &&& cards_value(plays_points(self.trick_spec().plays())) + cards_value(point_cards(self.kitty_spec())) * self.trick_multiplier() <= usize::MAX
        &&& forall|k: int| 0 <= k < self.points_spec().len() ==> (#[trigger] self.points_spec()[k]).1@.len() + taken <= usize::MAX
    }

    /// The messages of a finished trick: friends found, the kitty at the end
    /// of the game, and who won how many points.
    pub open spec fn finish_notices(self) -> Seq<MessageVariant> {
        let won = MessageVariant::TrickWon { winner: self.trick_spec().winning()->0, points: cards_value(self.trick_points()) as usize };
        self.friends_outcome().2 + self.kitty_notices() + seq![won]
    }

    /// The play after the trick: penalties and friends counted, the winner's
    /// points taken (sorted), and the winner leading a new trick.
    /// It is the player's turn in a trick already led, and the player holds
    /// the cards and may follow the format with them under the room's draw
    /// policy.
    pub open spec fn follows_legally(self, id: PlayerID, cards: Seq<Card>) -> bool {
        let t = self.trick_spec();
        &&& t.queue().len() > 0 && t.queue()[0] == id
        &&& t.format() is Some
        &&& can_play_result(t, self.hands_spec(), id, cards, self.propagated_spec().trick_draw_policy_spec()) is Ok
    }

    /// The player winning the trick has an entry for points and is a player.
    pub open spec fn winner_known(self) -> bool {
        let winner = self.trick_spec().winning()->0;
        &&& first_entry(self.points_spec(), winner) is Some
        &&& id_in(self.propagated_spec().players_spec(), winner)
    }

    pub open spec fn trick_finished(self, after: PlayPhase) -> bool {
        let winner = self.trick_spec().winning()->0;
        let players = self.propagated_spec().players_spec();
        let k = first_entry(self.points_spec(), winner)->0;
        let new_points = self.trick_points();
        &&& !self.ended_early()
        &&& self.trick_spec().queue().len() == 0 && self.trick_spec().plays().len() > 0
        &&& after.penalties_spec() == self.penalties_outcome()
        &&& after.team_spec() == self.friends_outcome().1
        &&& after.propagated_spec() == self.propagated_spec()
        &&& after.hands_spec() == self.hands_spec()
        &&& after.last_trick_spec() == Some(self.trick_spec())
        &&& exists|w: int| is_first_landlord_position(players, winner, w) && after.trick_spec().queue() == rotation(players, w)
        &&& after.trick_spec().plays().len() == 0
        &&& after.trick_spec().trump_spec() == self.trump_spec()
        &&& first_entry(self.points_spec(), winner) is Some
        &&& after.points_spec().len() == self.points_spec().len()
        &&& forall|j: int| 0 <= j < self.points_spec().len() && j != k ==> (#[trigger] after.points_spec()[j]).0 == self.points_spec()[j].0
            && after.points_spec()[j].1@ == self.points_spec()[j].1@
        &&& after.points_spec()[k].0 == winner
        &&& new_points.len() > 0 ==> after.points_spec()[k].1@.to_multiset() == (self.points_spec()[k].1@ + new_points).to_multiset()
            && cards_sorted(self.trump_spec(), after.points_spec()[k].1@)
        &&& new_points.len() == 0 ==> after.points_spec()[k].1@ == self.points_spec()[k].1@
    }

    /// Ends the trick: the winner takes the point cards (with the kitty's
    /// at the end of the game), a failed throw costs ten points, friends
    /// whose cards were played join the landlord's team, and the winner
    /// leads the next trick.
    #[verifier::rlimit(60)]
    #[verifier::spinoff_prover]
    pub fn finish_trick(&mut self) -> (r: Result<Vec<MessageVariant>, GameError>)
        requires
            old(self).wf(),
            old(self).finish_fits(),
        ensures
            final(self).wf(),
            old(self).ended_early() ==> r == Err::<Vec<MessageVariant>, GameError>(GameError::GameAlreadyEnded) && *final(self) == *old(self),
            !old(self).ended_early() && (old(self).trick_spec().queue().len() > 0 || old(self).trick_spec().plays().len() == 0)
                ==> r == Err::<Vec<MessageVariant>, GameError>(out_of_order()) && *final(self) == *old(self),
            r matches Err(e) ==> e == GameError::GameAlreadyEnded || e == out_of_order() || e == GameError::PlayerNotFound,
            r is Err ==> *final(self) == *old(self),
            !old(self).ended_early() && old(self).trick_spec().queue().len() == 0 && old(self).trick_spec().plays().len() > 0
                ==> (r is Ok <==> old(self).winner_known()),
            r is Ok ==> old(self).trick_finished(*final(self)),
            r matches Ok(msgs) ==> same_notices(msgs@, old(self).finish_notices()),
    {
        if self.game_ended_early {
            return Err(GameError::GameAlreadyEnded);
        }
        let ended = match self.trick.complete() {
            Ok(e) => e,
            Err(e) => {
                return Err(GameError::Trick { source: e });
            },
        };
        let TrickEnded { winner, points: trick_points, largest_trick_unit_size, failed_throw_size } = ended;
        proof {
            lemma_first_entry(self.points@, winner);
        }
        let k = match find_entry(&self.points, winner) {
            Some(k) => k,
            None => {
                return Err(GameError::PlayerNotFound);
            },
        };
        let winner_idx = match find_player_index(self.propagated.players(), winner) {
            Some(w) => w,
            None => {
                return Err(GameError::PlayerNotFound);
            },
        };
        let multiplier: usize = match self.propagated.kitty_penalty() {
            KittyPenalty::Times => 2 * largest_trick_unit_size,
            KittyPenalty::Power => pow2_exec(largest_trick_unit_size),
        };
        if failed_throw_size > 0 {
            match self.propagated.throw_penalty() {
                ThrowPenalty::NoPenalty => {},
                ThrowPenalty::TenPointsPerAttempt => {
                    let id = self.trick.played_cards()[0].id;
                    penalize_player(&mut self.penalties, id);
                },
            }
        }
        let mut msgs = self.find_friends();
        let kitty_points = point_cards_of(&self.kitty);
        let mut new_points = trick_points;
        let ghost mult = multiplier as int;
        proof {
            let kv = cards_value(kitty_points@);
            lemma_cards_value_nonneg(kitty_points@);
            lemma_cards_value_nonneg(plays_points(old(self).trick_spec().plays()));
            if mult > 0 {
                assert(kv <= kv * mult) by (nonlinear_arith)
                    requires
                        kv >= 0,
                        mult >= 1,
                ;
            }
            lemma_repeat_value(kitty_points@, multiplier as nat);
            lemma_cards_value_append(plays_points(old(self).trick_spec().plays()), repeat_cards(kitty_points@, multiplier as nat));
        }
        if self.hands.is_empty() {
            if self.propagated.should_reveal_kitty_at_end_of_game() {
                msgs.push(MessageVariant::EndOfGameKittyReveal { cards: vstd::slice::slice_to_vec(self.kitty.as_slice()) });
            }
            let mut round: usize = 0;
            while round < multiplier
                invariant
                    round <= multiplier,
                    new_points@ == plays_points(old(self).trick_spec().plays()) + repeat_cards(kitty_points@, round as nat),
                decreases multiplier - round,
            {
                let mut more = vstd::slice::slice_to_vec(kitty_points.as_slice());
                new_points.append(&mut more);
                round += 1;
            }
            if kitty_points.len() > 0 && multiplier > 0 {
                msgs.push(MessageVariant::PointsInKitty { points: value_of(&kitty_points), multiplier });
            }
        }
        let players = self.propagated.players();
        let winner_id = players[winner_idx].id;
        if new_points.len() > 0 {
            let num_points = value_of(&new_points);
            let mut taken = vstd::slice::slice_to_vec(self.points[k].1.as_slice());
            taken.append(&mut new_points);
            let sorted = sort_cards(self.trump, taken);
            self.points.set(k, (winner, sorted));
            msgs.push(MessageVariant::TrickWon { winner: winner_id, points: num_points });
        } else {
            msgs.push(MessageVariant::TrickWon { winner: winner_id, points: 0 });
        }
        let queue = rotation_from(players, winner_idx);
        let mut next = Trick::new(self.trump, queue);
        std::mem::swap(&mut self.trick, &mut next);
        self.last_trick = Some(next);
        Ok(msgs)
    }
}

/// Ten more penalty points for a player.
fn penalize_player(penalties: &mut Vec<(PlayerID, usize)>, id: PlayerID)
    requires
        first_entry(old(penalties)@, id) matches Some(k) ==> old(penalties)@[k].1 + 10 <= usize::MAX,
    ensures
        final(penalties)@ == penalize(old(penalties)@, id),
{
    proof {
        lemma_first_entry(penalties@, id);
    }
    match find_entry(penalties, id) {
        Some(k) => {
            let p = penalties[k].1;
            penalties.set(k, (id, p + 10));
        },
        None => {
            penalties.push((id, 10));
        },
    }
}

impl PlayPhase {
    /// Lets the cards of the trick find the friends called for.
    fn find_friends(&mut self) -> (r: Vec<MessageVariant>)
        ensures
            final(self).team_spec() == old(self).friends_outcome().1,
            r@ == old(self).friends_outcome().2,
            *final(self) == (PlayPhase { landlords_team: final(self).landlords_team, game_mode: final(self).game_mode, ..*old(self) }),
    {
        let friend_state = match &self.game_mode {
            GameMode::FindingFriends { num_friends, friends } => Some((*num_friends, vstd::slice::slice_to_vec(friends.as_slice()))),
            GameMode::Tractor => None,
        };
        match friend_state {
            Some((num_friends, friends)) => {
                let mut friends = friends;
                let msgs = meet_plays(&mut friends, &mut self.landlords_team, self.trick.played_cards(), self.propagated.multiple_join_policy());
                self.game_mode = GameMode::FindingFriends { num_friends, friends };
                msgs
            },
            None => Vec::new(),
        }
    }
}

/// The position of the first player with the given id.
fn find_player_index(players: &[Player], id: PlayerID) -> (r: Option<usize>)
    ensures
        r matches Some(i) ==> is_first_landlord_position(players@, id, i as int),
        r is None ==> !id_in(players@, id),
{
    let mut i: usize = 0;
    while i < players.len()
        invariant
            i <= players.len(),
            forall|j: int| 0 <= j < i ==> players@[j].id != id,
        decreases players.len() - i,
    {
        if players[i].id == id {
            return Some(i);
        }
        i += 1;
    }
    None
}


/// Going round the table from seat `start`, the seat `d` places on.
pub open spec fn seat_after(n: int, start: int, d: int) -> int {
    if start + d < n { start + d } else { start + d - n }
}

/// The seat of the next landlord, looking from `d` places after the
/// landlord on, round the table once: the first player on the side that
/// won the game.
pub open spec fn next_landlord_from(players: Seq<Player>, team: Seq<PlayerID>, start: int, won: bool, d: nat) -> Option<int>
    decreases players.len() + 1 - d,
{
    if d > players.len() || d == 0 {
        None
    } else {
        let i = seat_after(players.len() as int, start, d as int);
        if team.contains(players[i].id) == won {
            Some(i)
        } else {
            next_landlord_from(players, team, start, won, d + 1)
        }
    }
}

/// The messages that open the end of a game: the summary, and the bonus
/// level when one was earned.
pub open spec fn summary_messages(res: GameScoreResult, points: isize) -> Seq<MessageVariant> {
    seq![MessageVariant::EndOfGameSummary { landlord_won: res.landlord_won, non_landlords_points: points }] + (if res.landlord_bonus {
        seq![MessageVariant::BonusLevelEarned]
    } else {
        Seq::empty()
    })
}

/// The seat of the next landlord, if someone on the winning side sits at
/// the table.
fn next_landlord_index(players: &[Player], team: &[PlayerID], start: usize, won: bool) -> (r: Option<usize>)
    requires
        start < players.len(),
    ensures
        r matches Some(i) ==> next_landlord_from(players@, team@, start as int, won, 1) == Some(i as int) && i < players.len(),
        r is None ==> next_landlord_from(players@, team@, start as int, won, 1) is None,
{
    let n = players.len();
    let mut d: usize = 0;
    while d < n
        invariant
            d <= n,
            start < n == players@.len(),
            next_landlord_from(players@, team@, start as int, won, 1) == next_landlord_from(players@, team@, start as int, won, (d + 1) as nat),
        decreases n - d,
    {
        let i = if d < n - start - 1 { start + d + 1 } else { d + 1 - (n - start) };
        if team_contains(team, players[i].id) == won {
            return Some(i);
        }
        d += 1;
    }
    None
}

impl PlayPhase {
    /// Whether every card is played, or the game was ended early.
    pub open spec fn is_over(self) -> bool {
        self.ended_early() || (self.hands_spec().all_empty() && self.trick_spec().plays().len() == 0)
    }

    /// The points of the non-landlords' team, with the penalties counted.
    pub open spec fn non_landlords_points(self) -> int {
        points_where(self.points_spec(), |id: PlayerID| !self.team_spec().contains(id)) + penalty_adjustment(self.penalties_spec(), self.team_spec())
    }

    /// Whether fewer friends joined the landlord than were called.
    pub open spec fn smaller_team(self) -> bool {
        match self.game_mode_spec() {
            GameMode::FindingFriends { num_friends, .. } => self.team_spec().len() <= num_friends,
            GameMode::Tractor => false,
        }
    }

    /// How the levels are settled for a score, the landlord sitting at `li`.
    pub open spec fn settlement(self, res: GameScoreResult, li: int) -> LevelSettlement {
        LevelSettlement {
            non_landlord_level_bump: res.non_landlord_delta,
            landlord_level_bump: res.landlord_delta,
            landlord_won: res.landlord_won,
            landlord: self.landlord_spec(),
            landlord_rank: self.propagated_spec().players_spec()[li].level,
            advancement_policy: self.propagated_spec().advancement_policy_setting(),
            max_rank: self.propagated_spec().max_rank_setting(),
        }
    }

    /// What settling a game with the given score comes to: the summary,
    /// every player moved up (see `compute_player_level_deltas`), the next
    /// landlord named and set, the game counted, and the observers made
    /// players, all in a new game being set up.
    pub open spec fn settles(self, res: GameScoreResult, points: isize, r: Result<(crate::game_state::InitializePhase, bool, Vec<MessageVariant>), GameError>) -> bool {
        let prop = self.propagated_spec();
        let players = prop.players_spec();
        let team = self.team_spec();
        if !id_in(players, self.landlord_spec()) {
            r == Err::<(crate::game_state::InitializePhase, bool, Vec<MessageVariant>), GameError>(GameError::PlayerNotFound)
        } else {
            let li = choose|k: int| is_first_landlord_position(players, self.landlord_spec(), k);
            let s = self.settlement(res, li);
            match next_landlord_from(players, team, li, res.landlord_won, 1) {
                None => r == Err::<(crate::game_state::InitializePhase, bool, Vec<MessageVariant>), GameError>(GameError::PlayerNotFound),
                Some(j) => {
                    let next = players[j].id;
                    let head = summary_messages(res, points) + messages_upto(s, team, players, players.len() as int);
                    let k = head.len() as int;
                    &&& r matches Ok((init, won, msgs)) ==> {
                        &&& won == res.landlord_won
                        &&& msgs@.len() >= k + 2
                        &&& msgs@.subrange(0, k) == head
                        &&& msgs@[k] matches MessageVariant::GameFinished { result } && result@ == Seq::new(
                            players.len(),
                            |i: int| (players[i].name, player_result(s, team, players[i])),
                        )
                        &&& msgs@[k + 1] == MessageVariant::NewLandlordForNextGame { landlord: next }
                    }
                    &&& exists|mid: PropagatedState| self.settled_through(res, points, r, mid)
                },
            }
        }
    }

    /// The state `mid` is the one the game settled to before the observers
    /// were made players, and `r` follows from it.
    pub open spec fn settled_through(self, res: GameScoreResult, points: isize, r: Result<(crate::game_state::InitializePhase, bool, Vec<MessageVariant>), GameError>, mid: PropagatedState) -> bool {
        let prop = self.propagated_spec();
        let players = prop.players_spec();
        let team = self.team_spec();
        let li = choose|k: int| is_first_landlord_position(players, self.landlord_spec(), k);
        let s = self.settlement(res, li);
        let j = next_landlord_from(players, team, li, res.landlord_won, 1)->0;
        let next = players[j].id;
        let k = (summary_messages(res, points).len() + messages_upto(s, team, players, players.len() as int).len()) as int;
        &&& mid.players_spec() == Seq::new(players.len(), |i: int| player_after(s, team, players[i]))
        &&& mid.observers_spec() == prop.observers_spec()
        &&& mid.landlord_spec() == Some(next)
        &&& mid.next_id() == prop.next_id()
        &&& mid.same_rules(prop.counted())
        &&& prop.observers_spec().len() == 0 ==> (r matches Ok((init, won, msgs)) && msgs@.len() == k + 2
            && init.propagated_spec() == mid)
        &&& prop.observers_spec().len() > 0 ==> {
            let o = mid.roster_outcome(mid.players_spec() + mid.observers_spec().reverse(), Seq::empty(), mid.landlord_spec(), mid.next_id());
            match o.1 {
                Err(e) => r == Err::<(crate::game_state::InitializePhase, bool, Vec<MessageVariant>), GameError>(GameError::Settings { source: e }),
                Ok(m) => r matches Ok((init, won, msgs)) && init.propagated_spec().same_state(o.0)
                    && same_messages(msgs@.subrange(k + 2, msgs@.len() as int), joined_messages(prop.observers_spec().reverse()) + m),
            }
        }
    }

    /// Settles a game with the given score: see `settles`.
    #[verifier::spinoff_prover]
    pub fn settle_game(&self, res: GameScoreResult, points: isize) -> (r: Result<(crate::game_state::InitializePhase, bool, Vec<MessageVariant>), GameError>)
        requires
            forall|i: int| 0 <= i < self.propagated_spec().players_spec().len() ==> (#[trigger] self.propagated_spec().players_spec()[i]).metalevel
                + res.landlord_delta + res.non_landlord_delta <= usize::MAX,
            self.propagated_spec().games_finished() < usize::MAX,
            self.propagated_spec().can_recount((self.propagated_spec().players_spec().len() + self.propagated_spec().observers_spec().len()) as int),
        ensures
            self.settles(res, points, r),
    {
        let ghost prop = self.propagated_spec();
        let ghost team = self.team_spec();
        let mut msgs: Vec<MessageVariant> = Vec::new();
        msgs.push(MessageVariant::EndOfGameSummary { landlord_won: res.landlord_won, non_landlords_points: points });
        if res.landlord_bonus {
            msgs.push(MessageVariant::BonusLevelEarned);
        }
        let ghost summary = msgs@;
        proof {
            assert(summary =~= summary_messages(res, points));
        }
        let players = self.propagated.players();
        let landlord_idx = match find_player_index(players, self.landlord) {
            Some(i) => i,
            None => {
                return Err(GameError::PlayerNotFound);
            },
        };
        let ghost li = choose|k: int| is_first_landlord_position(prop.players_spec(), self.landlord_spec(), k);
        proof {
            assert(is_first_landlord_position(prop.players_spec(), self.landlord_spec(), landlord_idx as int));
            if li != landlord_idx as int {
                if li < landlord_idx {
                    assert(prop.players_spec()[li].id == self.landlord);
                } else {
                    assert(prop.players_spec()[landlord_idx as int].id == self.landlord);
                }
            }
        }
        let s = LevelSettlement {
            non_landlord_level_bump: res.non_landlord_delta,
            landlord_level_bump: res.landlord_delta,
            landlord_won: res.landlord_won,
            landlord: self.landlord,
            landlord_rank: players[landlord_idx].level,
            advancement_policy: self.propagated.advancement_policy(),
            max_rank: self.propagated.max_rank(),
        };
        let next_idx = match next_landlord_index(players, self.landlords_team.as_slice(), landlord_idx, res.landlord_won) {
            Some(j) => j,
            None => {
                return Err(GameError::PlayerNotFound);
            },
        };
        let next = players[next_idx].id;
        let mut propagated = self.propagated.clone();
        let ghost p1 = propagated;
        let mut settled = propagated.settle_levels(self.landlords_team.as_slice(), s);
        let ghost p2 = propagated;
        let ghost after = Seq::new(prop.players_spec().len(), |i: int| player_after(s, team, prop.players_spec()[i]));
        proof {
            assert(p2.players_spec() =~= after);
            assert(after[next_idx as int].id == next);
        }
        let ghost k = msgs@.len() + settled@.len() - 1;
        let ghost head = msgs@ + settled@.drop_last();
        msgs.append(&mut settled);
        msgs.push(MessageVariant::NewLandlordForNextGame { landlord: next });
        match propagated.set_landlord(Some(next)) {
            Ok(()) => {},
            Err(e) => {
                return Err(GameError::Settings { source: e });
            },
        }
        let ghost p3 = propagated;
        proof {
            p1.lemma_same_rules_trans(p2, p3);
            prop.lemma_same_rules_trans(p1, p3);
            prop.lemma_counted_rules(p3, 0);
        }
        propagated.count_finished_game();
        let ghost mid = propagated;
        let ghost n = (prop.players_spec().len() + prop.observers_spec().len()) as int;
        proof {
            p1.lemma_same_rules_trans(p2, p3);
            prop.lemma_same_rules_trans(p1, p3);
            prop.lemma_counted_rules(p3, n);
            assert(msgs@.subrange(0, k) =~= head);
        }
        proof {
            assert(mid.players_spec() == after);
            assert(mid.observers_spec() == prop.observers_spec());
            assert(mid.landlord_spec() == Some(next));
            assert(mid.next_id() == prop.next_id());
        }
        let mut more = match propagated.make_all_observers_into_players() {
            Ok(m) => m,
            Err(e) => {
                let r = Err(GameError::Settings { source: e });
                proof {
                    assert(self.settled_through(res, points, r, mid));
                }
                return r;
            },
        };
        let ghost before = msgs@;
        let ghost joined = more@;
        msgs.append(&mut more);
        proof {
            assert(msgs@.subrange(0, k) =~= head);
            assert(msgs@.subrange(k + 2, msgs@.len() as int) =~= joined);
            assert(msgs@[k] == before[k]);
            assert(msgs@[k + 1] == before[k + 1]);
        }
        let r = Ok((crate::game_state::InitializePhase::from_propagated(propagated), res.landlord_won, msgs));
        proof {
            assert(head =~= summary_messages(res, points) + messages_upto(s, team, prop.players_spec(), prop.players_spec().len() as int));
            assert(msgs@.len() >= k + 2);
            assert(self.settled_through(res, points, r, mid));
        }
        r
    }
}


impl PlayPhase {
    /// Ends the game once it is over: scores the points of the
    /// non-landlords' team by the room's scoring parameters (see
    /// `compute_level_deltas`, with a smaller landlord's team when fewer
    /// friends joined than were called), then settles the levels and the
    /// next landlord (see `settles`).
    pub fn finish_game(&self) -> (r: Result<(crate::game_state::InitializePhase, bool, Vec<MessageVariant>), GameError>)
        requires
            self.wf(),
            points_where(self.points_spec(), |id: PlayerID| true) + penalty_total(self.penalties_spec()) <= isize::MAX,
            self.propagated_spec().scoring_parameters().in_range(self.num_decks_spec(), POINTS_PER_DECK),
            forall|i: int| 0 <= i < self.propagated_spec().players_spec().len() ==> (#[trigger] self.propagated_spec().players_spec()[i]).metalevel
                + 2 * window_bound() + 101 <= usize::MAX,
            self.propagated_spec().games_finished() < usize::MAX,
            self.propagated_spec().can_recount((self.propagated_spec().players_spec().len() + self.propagated_spec().observers_spec().len()) as int),
        ensures
            !self.is_over() ==> r == Err::<(crate::game_state::InitializePhase, bool, Vec<MessageVariant>), GameError>(GameError::GameNotFinished),
            self.is_over() ==> {
                let gsp = self.propagated_spec().scoring_parameters();
                let nd = self.num_decks_spec();
                match gsp.materialize_error(nd, POINTS_PER_DECK) {
                    Some(e) => r == Err::<(crate::game_state::InitializePhase, bool, Vec<MessageVariant>), GameError>(GameError::Scoring { source: e }),
                    None => exists|m: MaterializedScoringParameters| {
                        &&& m.wins() == gsp.materialized_windows(nd, POINTS_PER_DECK).0
                        &&& m.loses() == gsp.materialized_windows(nd, POINTS_PER_DECK).1
                        &&& match #[trigger] m.score_spec(self.non_landlords_points()) {
                            Err(e) => r == Err::<(crate::game_state::InitializePhase, bool, Vec<MessageVariant>), GameError>(GameError::Scoring { source: e }),
                            Ok(g) => self.settles(with_bonus(g, gsp.bonus_policy(), self.smaller_team()), self.non_landlords_points() as isize, r),
                        }
                    },
                }
            },
    {
        if !self.game_finished() {
            return Err(GameError::GameNotFinished);
        }
        let (points, _) = self.calculate_points();
        let smaller = match &self.game_mode {
            GameMode::FindingFriends { num_friends, .. } => self.landlords_team.len() <= *num_friends,
            GameMode::Tractor => false,
        };
        let gsp = self.propagated.game_scoring_parameters();
        let res = compute_level_deltas(gsp, self.num_decks, POINTS_PER_DECK, points, smaller);
        let ghost pts = self.non_landlords_points();
        let ghost nd = self.num_decks_spec();
        let res = match res {
            Ok(res) => res,
            Err(e) => {
                let r = Err(GameError::Scoring { source: e });
                proof {
                    if gsp.materialize_error(nd, POINTS_PER_DECK) is None {
                        let m = choose|m: MaterializedScoringParameters| {
                            &&& m.wins() == gsp.materialized_windows(nd, POINTS_PER_DECK).0
                            &&& m.loses() == gsp.materialized_windows(nd, POINTS_PER_DECK).1
                            &&& res matches Err(e) ==> (#[trigger] m.score_spec(points as int)) == Err::<PartialGameScoreResult, ScoringError>(e)
                            &&& res matches Ok(rs) ==> (m.score_spec(points as int) matches Ok(g) && rs == with_bonus(g, gsp.bonus_policy(), smaller))
                        };
                        assert(m.score_spec(pts) == Err::<PartialGameScoreResult, ScoringError>(e));
                    }
                }
                return r;
            },
        };
        let r = self.settle_game(res, points);
        proof {
            let m = choose|m: MaterializedScoringParameters| {
                &&& m.wins() == gsp.materialized_windows(nd, POINTS_PER_DECK).0
                &&& m.loses() == gsp.materialized_windows(nd, POINTS_PER_DECK).1
                &&& Ok::<GameScoreResult, ScoringError>(res) matches Err(e) ==> (#[trigger] m.score_spec(points as int)) == Err::<PartialGameScoreResult, ScoringError>(e)
                &&& Ok::<GameScoreResult, ScoringError>(res) matches Ok(rs) ==> (m.score_spec(points as int) matches Ok(g) && rs == with_bonus(g, gsp.bonus_policy(), smaller))
            };
            assert(m.score_spec(pts) is Ok);
        }
        r
    }
}


impl PlayPhase {
    /// Whether the game is still being played: not ended early, and cards
    /// left in a hand or on the table.
    pub open spec fn ongoing(self) -> bool {
        !self.ended_early() && (!self.hands_spec().all_empty() || self.trick_spec().plays().len() > 0)
    }

    /// What the player may see: the points of the landlord's team when the
    /// room hides them, and while the game goes on, the others' hands and
    /// (but for the player who exchanged) the kitty, turned face down.
    pub open spec fn redacted_for(self, player: PlayerID, after: PlayPhase) -> bool {
        &&& after.wf()
        &&& after.points_spec().len() == self.points_spec().len()
        &&& forall|k: int| 0 <= k < self.points_spec().len() ==> (#[trigger] after.points_spec()[k]).0 == self.points_spec()[k].0
                && after.points_spec()[k].1@ == if self.propagated_spec().hides_landlord_points()
                && self.team_spec().contains(self.points_spec()[k].0) {
                Seq::empty()
        } else {
                self.points_spec()[k].1@
        }
        &&& self.ongoing() ==> forall|x: PlayerID, c: Card| #[trigger] after.hands_spec().count(x, c) == if x == player
                || !self.hands_spec().has_player(x) {
                self.hands_spec().count(x, c) as int
        } else if c == Card::Unknown {
                self.hands_spec().hand_size(x)
        } else {
                0
        }
        &&& !self.ongoing() ==> after.hands_spec() == self.hands_spec()
        &&& after.kitty_spec() == if self.ongoing() && player != self.exchanger_spec() {
                Seq::new(self.kitty_spec().len(), |i: int| Card::Unknown)
        } else {
                self.kitty_spec()
        }
        &&& after.trick_spec() == self.trick_spec()
        &&& after.propagated_spec() == self.propagated_spec()
        &&& after.team_spec() == self.team_spec()
        &&& after.penalties_spec() == self.penalties_spec()
        &&& after.trump_spec() == self.trump_spec()
        &&& after.landlord_spec() == self.landlord_spec()
        &&& after.exchanger_spec() == self.exchanger_spec()
        &&& after.num_decks_spec() == self.num_decks_spec()
        &&& after.ended_early() == self.ended_early()
    }

    /// Hides from the phase what the player may not see (see
    /// `redacted_for`).
    pub fn destructively_redact_for_player(&mut self, player: PlayerID)
        requires
            old(self).wf(),
            forall|x: PlayerID| old(self).hands_spec().has_player(x) ==> #[trigger] old(self).hands_spec().hand_size(x) <= usize::MAX,
        ensures
            old(self).redacted_for(player, *final(self)),
    {
        let ghost p0 = *self;
        if self.propagated.hide_landlord_points_setting() {
            let mut k: usize = 0;
            while k < self.points.len()
                invariant
                    k <= self.points@.len() == p0.points@.len(),
                    *self == (PlayPhase { points: self.points, ..p0 }),
                    p0.propagated_spec().hides_landlord_points(),
                    forall|q: int| 0 <= q < self.points@.len() ==> (#[trigger] self.points@[q]).0 == p0.points@[q].0
                        && self.points@[q].1@ == if q < k && p0.landlords_team@.contains(p0.points@[q].0) {
                        Seq::empty()
                    } else {
                        p0.points@[q].1@
                    },
                decreases self.points.len() - k,
            {
                let id = self.points[k].0;
                if team_contains(self.landlords_team.as_slice(), id) {
                    self.points.set(k, (id, Vec::new()));
                }
                k += 1;
            }
        }
        let ongoing = !self.game_ended_early && (!self.hands.is_empty() || self.trick.played_cards().len() > 0);
        if ongoing {
            proof {
                assert(self.hands == old(self).hands_spec());
                assert forall|x: PlayerID| self.hands.has_player(x) implies #[trigger] self.hands.hand_size(x) <= usize::MAX by {
                    assert(old(self).hands_spec().has_player(x));
                }
            }
            self.hands.destructively_redact_except_for_player(player);
        }
        if ongoing && player != self.exchanger {
            let n = self.kitty.len();
            let mut v: Vec<Card> = Vec::new();
            let mut i: usize = 0;
            while i < n
                invariant
                    i <= n,
                    v@ == Seq::new(i as nat, |q: int| Card::Unknown),
                decreases n - i,
            {
                v.push(Card::Unknown);
                i += 1;
                assert(v@ =~= Seq::new(i as nat, |q: int| Card::Unknown));
            }
            self.kitty = v;
        }
    }
}


/// Under `DefendPoints`, the ranks that carry points (five, ten and king)
/// are never passed on a step other than the defending team's first: a
/// climb that reaches such a rank there stops on it, without taking a step
/// and without starting over, and reports the stop if it had steps left.
pub proof fn law_point_ranks_stop_the_climb(
    rank_number: crate::types::Number,
    max_rank: Rank,
    is_defending: bool,
    landlord_rank: Rank,
    bump: nat,
    idx: nat,
)
    requires
        rank_number == crate::types::Number::Five || rank_number == crate::types::Number::Ten || rank_number == crate::types::Number::King,
        !is_defending || idx > 0,
    ensures
        climb(AdvancementPolicy::DefendPoints, Rank::Number(rank_number), max_rank, is_defending, landlord_rank, bump, idx)
            == (Rank::Number(rank_number), 0nat, idx < bump, 0nat),
{
}

/// Under `DefendPoints`, a player outside the defending team who stands on
/// five, ten or king stays there whatever the levels won: the rank and the
/// metalevel are kept, no rank is gained, and when there were levels to
/// gain the players are told that this rank blocked the advance.
pub proof fn law_non_defenders_blocked_at_point_ranks(s: LevelSettlement, team: Seq<PlayerID>, p: Player, n: crate::types::Number)
    requires
        s.advancement_policy == AdvancementPolicy::DefendPoints,
        p.level == Rank::Number(n),
        n == crate::types::Number::Five || n == crate::types::Number::Ten || n == crate::types::Number::King,
        !team.contains(p.id),
    ensures
        player_after(s, team, p).level == p.level,
        player_after(s, team, p).metalevel == p.metalevel,
        player_result(s, team, p).ranks_up == 0,
        player_messages(s, team, p) == (if s.non_landlord_level_bump > 0 {
            seq![MessageVariant::AdvancementBlocked { player: p.id, rank: p.level }]
        } else {
            Seq::<MessageVariant>::empty()
        }),
{
    law_point_ranks_stop_the_climb(n, s.max_rank, false, s.landlord_rank, s.non_landlord_level_bump as nat, 0);
    assert(Seq::<MessageVariant>::empty() + seq![MessageVariant::AdvancementBlocked { player: p.id, rank: p.level }]
        =~= seq![MessageVariant::AdvancementBlocked { player: p.id, rank: p.level }]);
    assert(Seq::<MessageVariant>::empty() + Seq::<MessageVariant>::empty() =~= Seq::<MessageVariant>::empty());
}

/// When a card is played, every friend called by another card is left as it
/// was, and every friend called by this card whose copies are still being
/// skipped counts one copy down, keeping its card and its player; so a
/// friend is found by the copy played after `initial_skip` others. When no
/// friend of this card is waiting for the very copy, nobody joins the team
/// and nothing is announced.
pub proof fn law_friend_copies_count_down(friends: Seq<Friend>, card: Card, id: PlayerID, team: Seq<PlayerID>, policy: MultipleJoinPolicy)
    ensures
        ({
            let r = card_meets(friends, friends.len() as int, card, id, team, policy);
            &&& r.0.len() == friends.len()
            &&& forall|x: int| 0 <= x < friends.len() && (#[trigger] friends[x]).card != card ==> r.0[x] == friends[x]
            &&& forall|x: int| 0 <= x < friends.len() && (#[trigger] friends[x]).card == card && friends[x].skip > 0 ==> {
                &&& r.0[x].skip + 1 == friends[x].skip
                &&& r.0[x].card == friends[x].card
                &&& r.0[x].initial_skip == friends[x].initial_skip
                &&& r.0[x].player_id == friends[x].player_id
            }
            &&& (forall|x: int| 0 <= x < friends.len() && (#[trigger] friends[x]).card == card ==> friends[x].skip > 0)
                ==> r.1 == team && r.2.len() == 0
        }),
{
    lemma_friend_copies_prefix(friends, friends.len() as int, card, id, team, policy);
}

proof fn lemma_friend_copies_prefix(friends: Seq<Friend>, j: int, card: Card, id: PlayerID, team: Seq<PlayerID>, policy: MultipleJoinPolicy)
    requires
        0 <= j <= friends.len(),
    ensures
        ({
            let r = card_meets(friends, j, card, id, team, policy);
            &&& r.0.len() == friends.len()
            &&& forall|x: int| 0 <= x < j && (#[trigger] friends[x]).card != card ==> r.0[x] == friends[x]
            &&& forall|x: int| 0 <= x < j && (#[trigger] friends[x]).card == card && friends[x].skip > 0 ==> {
                &&& r.0[x].skip + 1 == friends[x].skip
                &&& r.0[x].card == friends[x].card
                &&& r.0[x].initial_skip == friends[x].initial_skip
                &&& r.0[x].player_id == friends[x].player_id
            }
            &&& (forall|x: int| 0 <= x < j && (#[trigger] friends[x]).card == card ==> friends[x].skip > 0)
                ==> r.1 == team && r.2.len() == 0
        }),
    decreases j,
{
    lemma_card_meets_len(friends, j, card, id, team, policy);
    if j > 0 {
        lemma_friend_copies_prefix(friends, j - 1, card, id, team, policy);
        lemma_card_meets_len(friends, j - 1, card, id, team, policy);
        let prev = card_meets(friends, j - 1, card, id, team, policy);
        assert(prev.0[j - 1] == friends[j - 1]);
        let r = card_meets(friends, j, card, id, team, policy);
        assert forall|x: int| 0 <= x < j - 1 implies r.0[x] == prev.0[x] by {}
        if forall|x: int| 0 <= x < j && (#[trigger] friends[x]).card == card ==> friends[x].skip > 0 {
            assert(prev.1 == team && prev.2.len() == 0);
            assert(friends[j - 1].card == card ==> friends[j - 1].skip > 0);
        }
    }
}


/// Under `FullyUnrestricted`, nothing stops a climb: every level won is
/// taken.
pub proof fn law_fully_unrestricted_takes_every_level(
    rank: Rank,
    max_rank: Rank,
    is_defending: bool,
    landlord_rank: Rank,
    bump: nat,
    idx: nat,
)
    requires
        idx <= bump,
    ensures
        climb(AdvancementPolicy::FullyUnrestricted, rank, max_rank, is_defending, landlord_rank, bump, idx).1 == bump - idx,
        !climb(AdvancementPolicy::FullyUnrestricted, rank, max_rank, is_defending, landlord_rank, bump, idx).2,
    decreases bump - idx,
{
    if idx < bump {
        law_fully_unrestricted_takes_every_level(advanced_level(rank, max_rank), max_rank, is_defending, landlord_rank, bump, idx + 1);
    }
}

/// On its first step the defending team goes past a rank that carries points
/// (under any policy), as long as that rank is neither the last rank nor the
/// one just before a last no-trump.
pub proof fn law_defenders_pass_point_ranks_first(
    policy: AdvancementPolicy,
    n: crate::types::Number,
    max_rank: Rank,
    landlord_rank: Rank,
    bump: nat,
)
    requires
        bump > 0,
        Rank::Number(n) != max_rank,
        !(rank_successor(Rank::Number(n)) == Some(max_rank) && max_rank == Rank::NoTrump),
    ensures
        climb(policy, Rank::Number(n), max_rank, true, landlord_rank, bump, 0).1 >= 1,
{
}

/// Under `Unrestricted`, only the last rank (or the one just before a last
/// no-trump) can stop a climb: from any other rank a step is taken.
pub proof fn law_unrestricted_stops_only_at_the_top(
    rank: Rank,
    max_rank: Rank,
    is_defending: bool,
    landlord_rank: Rank,
    bump: nat,
    idx: nat,
)
    requires
        idx < bump,
        rank != max_rank,
        !(rank_successor(rank) == Some(max_rank) && max_rank == Rank::NoTrump),
    ensures
        climb(AdvancementPolicy::Unrestricted, rank, max_rank, is_defending, landlord_rank, bump, idx).1 >= 1,
{
}

} // verus!
