//! Playing a game by actions: each action a player takes is handed to the
//! phase the game is in, which may move the game to the next phase.

use vstd::prelude::*;

use crate::bidding::{valid_bid_set, BidPolicy, BidReinforcementPolicy, BidTakebackPolicy, JokerBidPolicy};
use crate::game_state::initialize_phase::{dealt_from, kitty_fits, resets, start_error};
use crate::game_state::{game_outcome_matches, same_phase, GameError, GameState, InitializePhase};
use crate::message::MessageVariant;
use crate::scoring::{window_bound, GameScoringParameters, POINTS_PER_DECK};
use crate::settings::{
    distinct_ids, first_with_id, id_in, without_id, AdvancementPolicy, SettingsError, FirstLandlordSelectionPolicy, FriendSelection, FriendSelectionPolicy, GameModeSettings,
    GameShadowingPolicy, GameStartPolicy, KittyBidPolicy, KittyPenalty, KittyTheftPolicy, MultipleJoinPolicy,
    PlayTakebackPolicy, PropagatedState, ThrowPenalty,
};
use crate::trick::round::PlayedCards;
use crate::trick::{unit_sizable, ThrowEvaluationPolicy, TrickDrawPolicy, TrickUnit};
use crate::types::{occurrences, Card, Number, PlayerID, Rank};

verus! {

/// What a player can do in a game.
#[derive(Debug)]
pub enum Action {
    ResetGame,
    MakeObserver(PlayerID),
    MakePlayer(PlayerID),
    SetChatLink(Option<String>),
    SetNumDecks(Option<usize>),
    SetKittySize(Option<usize>),
    SetFriendSelectionPolicy(FriendSelectionPolicy),
    SetMultipleJoinPolicy(MultipleJoinPolicy),
    SetFirstLandlordSelectionPolicy(FirstLandlordSelectionPolicy),
    SetBidPolicy(BidPolicy),
    SetBidReinforcementPolicy(BidReinforcementPolicy),
    SetJokerBidPolicy(JokerBidPolicy),
    SetHideLandlordsPoints(bool),
    SetHidePlayedCards(bool),
    ReorderPlayers(Vec<PlayerID>),
    SetRank(Number),
    SetMetaRank(usize),
    SetMaxRank(Rank),
    SetLandlord(Option<PlayerID>),
    SetLandlordEmoji(Option<String>),
    SetGameMode(GameModeSettings),
    SetAdvancementPolicy(AdvancementPolicy),
    SetGameScoringParameters(GameScoringParameters),
    SetKittyPenalty(KittyPenalty),
    SetKittyBidPolicy(KittyBidPolicy),
    SetTrickDrawPolicy(TrickDrawPolicy),
    SetThrowPenalty(ThrowPenalty),
    SetThrowEvaluationPolicy(ThrowEvaluationPolicy),
    SetPlayTakebackPolicy(PlayTakebackPolicy),
    SetBidTakebackPolicy(BidTakebackPolicy),
    SetKittyTheftPolicy(KittyTheftPolicy),
    SetGameShadowingPolicy(GameShadowingPolicy),
    SetGameStartPolicy(GameStartPolicy),
    SetShouldRevealKittyAtEndOfGame(bool),
    SetHideThrowHaltingPlayer(bool),
    StartGame,
    DrawCard,
    RevealCard,
    Bid(Card, usize),
    PickUpKitty,
    PutDownKitty,
    MoveCardToKitty(Card),
    MoveCardToHand(Card),
    SetFriends(Vec<FriendSelection>),
    BeginPlay,
    PlayCards(Vec<Card>),
    PlayCardsWithHint(Vec<Card>, Vec<TrickUnit>),
    EndTrick,
    TakeBackCards,
    TakeBackBid,
    StartNewGame,
    Beep,
}

/// Whether the action changes the settings or the players while a game is
/// being set up.
pub open spec fn is_setup_action(action: Action) -> bool {
    match action {
        Action::MakeObserver(_) | Action::MakePlayer(_) | Action::SetNumDecks(_) | Action::SetKittySize(_)
        | Action::SetFriendSelectionPolicy(_) | Action::SetMultipleJoinPolicy(_) | Action::SetFirstLandlordSelectionPolicy(_)
        | Action::SetBidPolicy(_) | Action::SetBidReinforcementPolicy(_) | Action::SetJokerBidPolicy(_)
        | Action::SetHideLandlordsPoints(_) | Action::SetHidePlayedCards(_) | Action::ReorderPlayers(_) | Action::SetRank(_)
        | Action::SetMetaRank(_) | Action::SetMaxRank(_) | Action::SetLandlord(_) | Action::SetLandlordEmoji(_)
        | Action::SetGameMode(_) | Action::SetAdvancementPolicy(_) | Action::SetGameScoringParameters(_)
        | Action::SetKittyPenalty(_) | Action::SetKittyBidPolicy(_) | Action::SetTrickDrawPolicy(_) | Action::SetThrowPenalty(_)
        | Action::SetThrowEvaluationPolicy(_) | Action::SetPlayTakebackPolicy(_) | Action::SetBidTakebackPolicy(_)
        | Action::SetKittyTheftPolicy(_) | Action::SetGameShadowingPolicy(_) | Action::SetGameStartPolicy(_)
        | Action::SetShouldRevealKittyAtEndOfGame(_) | Action::SetHideThrowHaltingPlayer(_) => true,
        _ => false,
    }
}

/// Whether the game, in its current phase, takes the action.
pub open spec fn accepts(s: GameState, action: Action) -> bool {
    match action {
        Action::ResetGame | Action::SetChatLink(_) => true,
        Action::StartGame => s is Initialize,
        Action::DrawCard | Action::RevealCard => s is Draw,
        Action::Bid(_, _) | Action::TakeBackBid | Action::PickUpKitty => s is Draw || s is Exchange,
        Action::PutDownKitty | Action::MoveCardToKitty(_) | Action::MoveCardToHand(_) | Action::SetFriends(_) | Action::BeginPlay => s is Exchange,
        Action::PlayCards(_) | Action::PlayCardsWithHint(_, _) | Action::EndTrick | Action::TakeBackCards | Action::StartNewGame => s is Play,
        Action::Beep => false,
        _ => is_setup_action(action) && s is Initialize,
    }
}

/// What the settings must satisfy for a change while setting up: the
/// counts that the change works with fit the machine.
pub open spec fn setup_ready(p: PropagatedState, action: Action) -> bool {
    match action {
        Action::MakeObserver(pid) => p.can_recount(without_id(p.players_spec(), pid).len() as int),
        Action::MakePlayer(_) => p.can_recount(p.players_spec().len() + 1int),
        Action::SetNumDecks(nd) => nd != Some(0usize) && nd != p.num_decks_setting() ==> {
            &&& p.decks_after(nd) * 100 + 5000 <= window_bound()
            &&& p.scoring_parameters().in_range(p.decks_after(nd) as usize, 100)
        },
        Action::SetKittySize(_) => p.num_decks_spec() * 54 <= usize::MAX,
        Action::SetGameScoringParameters(g) => g.in_range(p.num_decks_spec() as usize, 100) && p.num_decks_spec() * 100 + 5000 <= isize::MAX,
        _ => true,
    }
}

/// What the game must satisfy for the action: what the phase that takes
/// it needs (its cards well formed, and the counts it works with fitting
/// the machine).
pub open spec fn ready(s: GameState, action: Action, id: PlayerID) -> bool {
    match action {
        Action::ResetGame => s.propagated_spec().can_recount(
            (s.propagated_spec().players_spec().len() + s.propagated_spec().observers_spec().len()) as int,
        ),
        Action::StartGame => s.propagated_spec().num_decks_spec() * 54 <= usize::MAX && kitty_fits(s.propagated_spec()),
        Action::DrawCard => match s {
            GameState::Draw(p) => {
                &&& p.position_spec() < p.propagated_spec().players_spec().len()
                &&& p.hands_spec().wf()
                &&& forall|c: Card| p.hands_spec().count(id, c) < usize::MAX
            },
            _ => true,
        },
        Action::Bid(_, _) => match s {
            GameState::Draw(p) => p.hands_spec().wf() && (p.propagated_spec().joker_bid_policy_setting()
                == JokerBidPolicy::LJNumDecksHJNumDecksLessOne && p.hands_spec().count(id, Card::BigJoker) > 0 ==> p.num_decks_spec() >= 1),
            GameState::Exchange(p) => p.hands_spec().wf() && (p.propagated_spec().joker_bid_policy_setting()
                == JokerBidPolicy::LJNumDecksHJNumDecksLessOne && p.hands_spec().count(id, Card::BigJoker) > 0 ==> p.num_decks_spec() >= 1),
            _ => true,
        },
        Action::PickUpKitty => match s {
            GameState::Draw(p) => p.hands_spec().wf(),
            GameState::Exchange(p) => p.epoch_spec() < usize::MAX,
            _ => true,
        },
        Action::MoveCardToKitty(_) => match s {
            GameState::Exchange(p) => p.hands_spec().wf(),
            _ => true,
        },
        Action::MoveCardToHand(c) => match s {
            GameState::Exchange(p) => p.hands_spec().wf() && p.hands_spec().count(p.exchanger_spec(), c) < usize::MAX,
            _ => true,
        },
        Action::BeginPlay => match s {
            GameState::Exchange(p) => p.hands_spec().wf(),
            _ => true,
        },
        Action::PlayCards(_) => match s {
            GameState::Play(p) => p.wf(),
            _ => true,
        },
        Action::PlayCardsWithHint(_, hint) => match s {
            GameState::Play(p) => p.wf() && forall|i: int| 0 <= i < hint@.len() ==> unit_sizable(#[trigger] hint@[i]),
            _ => true,
        },
        Action::EndTrick => match s {
            GameState::Play(p) => p.wf() && p.finish_fits(),
            _ => true,
        },
        Action::TakeBackCards => match s {
            GameState::Play(p) => {
                &&& p.wf()
                &&& (p.trick_spec().plays().len() > 0 && p.trick_spec().plays().last().id == id) ==> {
                    &&& p.hands_spec().has_player(id)
                    &&& forall|c: Card| p.hands_spec().count(id, c) + occurrences(p.trick_spec().plays().last().cards@, c) <= usize::MAX
                }
            },
            _ => true,
        },
        Action::StartNewGame => match s {
            GameState::Play(p) => {
                &&& p.wf()
                &&& crate::game_state::play_phase::points_where(p.points_spec(), |x: PlayerID| true)
                    + crate::game_state::play_phase::penalty_total(p.penalties_spec()) <= isize::MAX
                &&& p.propagated_spec().scoring_parameters().in_range(p.num_decks_spec(), POINTS_PER_DECK)
                &&& forall|i: int| 0 <= i < p.propagated_spec().players_spec().len() ==> (#[trigger] p.propagated_spec().players_spec()[i]).metalevel
                    + 2 * window_bound() + 101 <= usize::MAX
                &&& p.propagated_spec().games_finished() < usize::MAX
                &&& p.propagated_spec().can_recount(
                    (p.propagated_spec().players_spec().len() + p.propagated_spec().observers_spec().len()) as int,
                )
            },
            _ => true,
        },
        _ => match s {
            GameState::Initialize(p) => setup_ready(p.propagated_spec(), action),
            _ => true,
        },
    }
}

/// The messages that a change while setting up comes with, where the change
/// itself names them: the new rank, meta-rank, max rank, landlord or emoji.
pub open spec fn setup_messages(action: Action, msgs: Seq<MessageVariant>) -> bool {
    match action {
        Action::SetRank(n) => msgs == seq![MessageVariant::SetRank { rank: Rank::Number(n) }],
        Action::SetMetaRank(m) => msgs == seq![MessageVariant::SetMetaRank { metarank: m }],
        Action::SetMaxRank(rank) => msgs == seq![MessageVariant::SetMaxRank { rank }],
        Action::SetLandlord(l) => msgs == seq![MessageVariant::SetLandlord { landlord: l }],
        Action::SetLandlordEmoji(e) => msgs.len() == 1 && (msgs[0] matches MessageVariant::SetLandlordEmoji { emoji } && emoji@ == match e {
            Some(a) => a@,
            None => "(当庄)"@,
        }),
        Action::ReorderPlayers(_) => msgs.len() == 0,
        _ => true,
    }
}

/// The messages of an action, where the action itself names them.
pub open spec fn action_messages(action: Action, msgs: Seq<MessageVariant>) -> bool {
    match action {
        Action::SetChatLink(_) | Action::DrawCard | Action::MoveCardToKitty(_) | Action::MoveCardToHand(_) | Action::SetFriends(_)
        | Action::BeginPlay => msgs.len() == 0,
        Action::StartGame => msgs == seq![MessageVariant::StartingGame],
        Action::RevealCard => msgs == seq![MessageVariant::RevealedCardFromKitty],
        Action::Bid(card, count) => msgs == seq![MessageVariant::MadeBid { card, count }],
        Action::TakeBackBid => msgs == seq![MessageVariant::TookBackBid],
        Action::PutDownKitty => msgs == seq![MessageVariant::PutDownCards],
        Action::TakeBackCards => msgs == seq![MessageVariant::TookBackPlay],
        _ => setup_messages(action, msgs),
    }
}

/// The phase the game is in after an action taken in `s` succeeds: the
/// next phase for the actions that end one, else the same.
pub open spec fn phase_after(s: GameState, action: Action, after: GameState) -> bool {
    match action {
        Action::ResetGame | Action::StartNewGame => after is Initialize,
        Action::StartGame => after is Draw,
        Action::PickUpKitty => if s is Draw { after is Exchange } else { after is Exchange },
        Action::BeginPlay => after is Play,
        _ => same_phase(s, after),
    }
}

/// Whether a bid is made, for a bid in the phase the game is in: see
/// `DrawPhase::bid` and `ExchangePhase::bid`.
pub open spec fn bid_accepted(s: GameState, action: Action, id: PlayerID, made: bool) -> bool {
    match (action, s) {
        (Action::Bid(card, count), GameState::Draw(p)) => made == (p.revealed_spec() == 0 && p.autobid_spec() is None && valid_bid_set(
            id,
            p.bids_spec(),
            p.hands_spec(),
            p.propagated_spec().players_spec(),
            p.propagated_spec().landlord_spec(),
            0,
            p.propagated_spec().bid_policy_setting(),
            p.propagated_spec().bid_reinforcement_policy_setting(),
            p.propagated_spec().joker_bid_policy_setting(),
            p.num_decks_spec(),
        ).contains(crate::bidding::Bid { id, card, count, epoch: 0 })),
        (Action::Bid(card, count), GameState::Exchange(p)) => made == (p.finalized_spec() && p.autobid_spec() is None && valid_bid_set(
            id,
            p.bids_spec(),
            p.hands_spec(),
            p.propagated_spec().players_spec(),
            p.propagated_spec().landlord_spec(),
            p.epoch_spec(),
            p.propagated_spec().bid_policy_setting(),
            p.propagated_spec().bid_reinforcement_policy_setting(),
            p.propagated_spec().joker_bid_policy_setting(),
            p.num_decks_spec(),
        ).contains(crate::bidding::Bid { id, card, count, epoch: p.epoch_spec() })),
        _ => true,
    }
}

/// Why an action that ends a phase is refused before anything changes, if
/// it is: play begins only when the exchange can end (see
/// `ExchangePhase::advance_error`), and a new game starts only once the
/// game is over.
pub open spec fn refused_early(s: GameState, action: Action, id: PlayerID) -> Option<GameError> {
    match (action, s) {
        (Action::BeginPlay, GameState::Exchange(p)) => p.advance_error(id),
        (Action::StartNewGame, GameState::Play(p)) => if !p.is_over() { Some(GameError::GameNotFinished) } else { None },
        _ => None,
    }
}

/// What a change while setting up does to the settings `p`, giving `after`
/// and `r`: the roster changes and the settings of counts as the settings
/// say (see `PropagatedState`), each policy set (with a message when it
/// changes, or always for some), and the rank, meta-rank, max rank, landlord
/// and emoji of `setup_messages`.
pub open spec fn setup_done(p: PropagatedState, action: Action, id: PlayerID, after: PropagatedState, r: Result<Vec<MessageVariant>, GameError>) -> bool {
    if is_roster_action(action) {
        setup_done_roster(p, action, id, after, r)
    } else if is_people_action(action) {
        setup_done_people(p, action, id, after, r)
    } else if is_change_action(action) {
        setup_done_change(p, action, id, after, r)
    } else {
        setup_done_toggle(p, action, id, after, r)
    }
}

/// What `setup_done` says of the changes of the roster or of the counts.
pub open spec fn setup_done_roster(p: PropagatedState, action: Action, id: PlayerID, after: PropagatedState, r: Result<Vec<MessageVariant>, GameError>) -> bool {
    match action {
        Action::MakeObserver(pid) => if !id_in(p.players_spec(), pid) {
            r == Err::<Vec<MessageVariant>, GameError>(GameError::Settings { source: SettingsError::PlayerNotFound }) && after == p
        } else {
            let o = p.roster_outcome(
                without_id(p.players_spec(), pid),
                p.observers_spec().push(first_with_id(p.players_spec(), pid)),
                if p.landlord_spec() == Some(pid) { None } else { p.landlord_spec() },
                p.next_id(),
            );
            after.same_state(o.0) && game_outcome_matches(r, o.1)
        },
        Action::MakePlayer(pid) => if !id_in(p.observers_spec(), pid) {
            r == Err::<Vec<MessageVariant>, GameError>(GameError::Settings { source: SettingsError::PlayerNotFound }) && after == p
        } else {
            let o = p.roster_outcome(
                p.players_spec().push(first_with_id(p.observers_spec(), pid)),
                without_id(p.observers_spec(), pid),
                p.landlord_spec(),
                p.next_id(),
            );
            after.same_state(o.0) && game_outcome_matches(r, o.1)
        },
        Action::SetNumDecks(nd) => after.same_state(p.decks_outcome(nd).0) && game_outcome_matches(r, p.decks_outcome(nd).1),
        Action::SetKittySize(k) => if k == p.kitty_size_spec() {
            (r matches Ok(m) && m@.len() == 0) && after == p
        } else {
            match k {
                Some(size) => match p.kitty_size_error(size) {
                    Some(e) => r == Err::<Vec<MessageVariant>, GameError>(GameError::Settings { source: e }) && after == p,
                    None => (r matches Ok(m) && m@ == seq![MessageVariant::KittySizeSet { size: k }]) && after == p.with_kitty_size(k),
                },
                None => (r matches Ok(m) && m@ == seq![MessageVariant::KittySizeSet { size: None }]) && after == p.with_kitty_size(None),
            }
        },
        Action::SetGameScoringParameters(g) => after == p.scoring_outcome(g).0 && game_outcome_matches(r, p.scoring_outcome(g).1),
        Action::ReorderPlayers(order) => {
            &&& (r is Ok <==> distinct_ids(order@) == p.players_spec().len()
                && forall|i: int| 0 <= i < order@.len() ==> id_in(p.players_spec(), #[trigger] order@[i]))
            &&& r is Err ==> after == p
            &&& r matches Ok(_) ==> after.players_spec() == order@.map_values(|x: PlayerID| first_with_id(p.players_spec(), x))
        },
        _ => true,
    }
}

/// What `setup_done` says of the changes of a rank, the landlord or the emoji.
pub open spec fn setup_done_people(p: PropagatedState, action: Action, id: PlayerID, after: PropagatedState, r: Result<Vec<MessageVariant>, GameError>) -> bool {
    match action {
        Action::SetRank(_) | Action::SetMetaRank(_) => {
            &&& (r is Ok <==> id_in(p.players_spec(), id))
            &&& r is Err ==> r == Err::<Vec<MessageVariant>, GameError>(GameError::Settings { source: SettingsError::PlayerNotFound }) && after == p
        },
        Action::SetMaxRank(rank) => r is Ok && after == p.with_max_rank(rank),
        Action::SetLandlord(l) => {
            &&& (r is Err <==> (l matches Some(x) && !id_in(p.players_spec(), x)))
            &&& r is Err ==> r == Err::<Vec<MessageVariant>, GameError>(GameError::Settings { source: SettingsError::PlayerNotFound }) && after == p
            &&& r is Ok ==> after.landlord_spec() == l
        },
        Action::SetLandlordEmoji(e) => r is Ok && after.landlord_emoji_spec() == e,
        _ => true,
    }
}

/// What `setup_done` says of the policies announced when they change.
pub open spec fn setup_done_change(p: PropagatedState, action: Action, id: PlayerID, after: PropagatedState, r: Result<Vec<MessageVariant>, GameError>) -> bool {
    match action {
        Action::SetAdvancementPolicy(v) => (r matches Ok(m) && if p.advancement_policy_setting() == v { m@.len() == 0 } else { m@.len() == 1 && m@[0] == MessageVariant::AdvancementPolicySet { policy: v } })
            && after.advancement_policy_setting() == v && after.players_spec() == p.players_spec(),
        Action::SetKittyPenalty(v) => (r matches Ok(m) && if p.kitty_penalty_setting() == v { m@.len() == 0 } else { m@.len() == 1 && m@[0] == MessageVariant::KittyPenaltySet { kitty_penalty: v } })
            && after.kitty_penalty_setting() == v && after.players_spec() == p.players_spec(),
        Action::SetKittyBidPolicy(v) => (r matches Ok(m) && if p.kitty_bid_policy_setting() == v { m@.len() == 0 } else { m@.len() == 1 && m@[0] == MessageVariant::KittyBidPolicySet { policy: v } })
            && after.kitty_bid_policy_setting() == v && after.players_spec() == p.players_spec(),
        Action::SetTrickDrawPolicy(v) => (r matches Ok(m) && if p.trick_draw_policy_setting() == v { m@.len() == 0 } else { m@.len() == 1 && m@[0] == MessageVariant::TrickDrawPolicySet { policy: v } })
            && after.trick_draw_policy_setting() == v && after.players_spec() == p.players_spec(),
        Action::SetThrowPenalty(v) => (r matches Ok(m) && if p.throw_penalty_setting() == v { m@.len() == 0 } else { m@.len() == 1 && m@[0] == MessageVariant::ThrowPenaltySet { throw_penalty: v } })
            && after.throw_penalty_setting() == v && after.players_spec() == p.players_spec(),
        Action::SetThrowEvaluationPolicy(v) => (r matches Ok(m) && if p.throw_evaluation_policy_setting() == v { m@.len() == 0 } else { m@.len() == 1 && m@[0] == MessageVariant::ThrowEvaluationPolicySet { policy: v } })
            && after.throw_evaluation_policy_setting() == v && after.players_spec() == p.players_spec(),
        Action::SetPlayTakebackPolicy(v) => (r matches Ok(m) && if p.play_takeback_policy_setting() == v { m@.len() == 0 } else { m@.len() == 1 && m@[0] == MessageVariant::PlayTakebackPolicySet { policy: v } })
            && after.play_takeback_policy_setting() == v && after.players_spec() == p.players_spec(),
        Action::SetBidTakebackPolicy(v) => (r matches Ok(m) && if p.bid_takeback_policy_setting() == v { m@.len() == 0 } else { m@.len() == 1 && m@[0] == MessageVariant::BidTakebackPolicySet { policy: v } })
            && after.bid_takeback_policy_setting() == v && after.players_spec() == p.players_spec(),
        Action::SetKittyTheftPolicy(v) => (r matches Ok(m) && if p.kitty_theft_policy_setting() == v { m@.len() == 0 } else { m@.len() == 1 && m@[0] == MessageVariant::KittyTheftPolicySet { policy: v } })
            && after.kitty_theft_policy_setting() == v && after.players_spec() == p.players_spec(),
        Action::SetGameShadowingPolicy(v) => (r matches Ok(m) && if p.game_shadowing_policy_setting() == v { m@.len() == 0 } else { m@.len() == 1 && m@[0] == MessageVariant::GameShadowingPolicySet { policy: v } })
            && after.game_shadowing_policy_setting() == v && after.players_spec() == p.players_spec(),
        Action::SetGameStartPolicy(v) => (r matches Ok(m) && if p.game_start_policy_setting() == v { m@.len() == 0 } else { m@.len() == 1 && m@[0] == MessageVariant::GameStartPolicySet { policy: v } })
            && after.game_start_policy_setting() == v && after.players_spec() == p.players_spec(),
        _ => true,
    }
}

/// What `setup_done` says of the settings announced whenever set.
pub open spec fn setup_done_toggle(p: PropagatedState, action: Action, id: PlayerID, after: PropagatedState, r: Result<Vec<MessageVariant>, GameError>) -> bool {
    match action {
        Action::SetMultipleJoinPolicy(v) => (r matches Ok(m) && m@ == seq![MessageVariant::MultipleJoinPolicySet { policy: v }])
            && after == p.with_multiple_join_policy(v),
        Action::SetBidReinforcementPolicy(v) => (r matches Ok(m) && m@ == seq![MessageVariant::BidReinforcementPolicySet { policy: v }])
            && after == p.with_bid_reinforcement_policy(v),
        Action::SetJokerBidPolicy(v) => (r matches Ok(m) && m@ == seq![MessageVariant::JokerBidPolicySet { policy: v }])
            && after == p.with_joker_bid_policy(v),
        Action::SetHideThrowHaltingPlayer(v) => (r matches Ok(m) && m@ == seq![MessageVariant::HideThrowHaltingPlayer { set: v }])
            && after == p.with_hidden_throw_halting(v),
        Action::SetHideLandlordsPoints(v) => (r matches Ok(m) && m@ == seq![MessageVariant::SetDefendingPointVisibility { visible: !v }])
            && after.hides_landlord_points() == v && after.players_spec() == p.players_spec(),
        Action::SetHidePlayedCards(v) => (r matches Ok(m) && m@ == seq![MessageVariant::SetCardVisibility { visible: !v }])
            && after.hides_played_cards() == v && after.players_spec() == p.players_spec(),
        Action::SetFriendSelectionPolicy(v) => (r matches Ok(m) && m@.len() == 1 && m@[0] == MessageVariant::FriendSelectionPolicySet { policy: v }) && after.friend_selection_policy_setting() == v
            && after.players_spec() == p.players_spec(),
        Action::SetFirstLandlordSelectionPolicy(v) => (r matches Ok(m) && m@.len() == 1 && m@[0] == MessageVariant::FirstLandlordSelectionPolicySet { policy: v }) && after.first_landlord_selection_policy_setting() == v
            && after.players_spec() == p.players_spec(),
        Action::SetBidPolicy(v) => (r matches Ok(m) && m@.len() == 1 && m@[0] == MessageVariant::BidPolicySet { policy: v }) && after.bid_policy_setting() == v
            && after.players_spec() == p.players_spec(),
        Action::SetShouldRevealKittyAtEndOfGame(v) => (r matches Ok(m) && m@.len() == 1 && m@[0] == MessageVariant::ShouldRevealKittyAtEndOfGameSet { should_reveal: v }) && after.should_reveal_kitty_at_end_of_game_setting() == v
            && after.players_spec() == p.players_spec(),
        Action::SetGameMode(v) => (r matches Ok(m) && m@.len() == 1 && m@[0] == MessageVariant::GameModeSet { game_mode: v }) && after.game_mode_spec() == v
            && after.players_spec() == p.players_spec(),
        _ => true,
    }
}


/// Whether the action changes the players or the counts of the settings.
pub open spec fn is_roster_action(action: Action) -> bool {
    action is MakeObserver || action is MakePlayer || action is SetNumDecks || action is SetKittySize || action is SetGameScoringParameters || action is ReorderPlayers
}

/// Whether the action changes a player's rank, the landlord or its emoji.
pub open spec fn is_people_action(action: Action) -> bool {
    action is SetRank || action is SetMetaRank || action is SetMaxRank || action is SetLandlord || action is SetLandlordEmoji
}

/// Whether the action sets a policy announced only when it changes.
pub open spec fn is_change_action(action: Action) -> bool {
    action is SetAdvancementPolicy || action is SetKittyPenalty || action is SetKittyBidPolicy || action is SetTrickDrawPolicy || action is SetThrowPenalty || action is SetThrowEvaluationPolicy || action is SetPlayTakebackPolicy || action is SetBidTakebackPolicy || action is SetKittyTheftPolicy || action is SetGameShadowingPolicy || action is SetGameStartPolicy
}

/// A change of the roster or of the counts while setting up.
#[verifier::spinoff_prover]
fn setup_roster(p: &mut PropagatedState, action: Action, id: PlayerID) -> (r: Result<Vec<MessageVariant>, GameError>)
    requires
        is_roster_action(action),
        setup_ready(*old(p), action),
    ensures
        r matches Ok(msgs) ==> setup_messages(action, msgs@),
        setup_done_roster(*old(p), action, id, *final(p), r),
{
    let res = match action {
        Action::MakeObserver(pid) => p.make_observer(pid),
        Action::MakePlayer(pid) => p.make_player(pid),
        Action::SetNumDecks(nd) => p.set_num_decks(nd),
        Action::SetKittySize(size) => match p.set_kitty_size(size) {
            Ok(Some(m)) => {
                let mut v: Vec<MessageVariant> = Vec::new();
                v.push(m);
                Ok(v)
            },
            Ok(None) => Ok(Vec::new()),
            Err(e) => Err(e),
        },
        Action::ReorderPlayers(order) => match p.reorder_players(order.as_slice()) {
            Ok(()) => Ok(Vec::new()),
            Err(e) => Err(e),
        },
        Action::SetGameScoringParameters(g) => p.set_game_scoring_parameters(g),
        _ => {
            return Err(GameError::WrongPhase);
        },
    };
    match res {
        Ok(v) => Ok(v),
        Err(e) => Err(GameError::Settings { source: e }),
    }
}

/// A change of a rank, the landlord or the emoji while setting up.
#[verifier::spinoff_prover]
fn setup_people(p: &mut PropagatedState, action: Action, id: PlayerID) -> (r: Result<Vec<MessageVariant>, GameError>)
    requires
        is_people_action(action),
        setup_ready(*old(p), action),
    ensures
        r matches Ok(msgs) ==> setup_messages(action, msgs@),
        setup_done_people(*old(p), action, id, *final(p), r),
{
    let res = match action {
        Action::SetRank(n) => match p.set_rank(id, n) {
            Ok(()) => {
                let mut v: Vec<MessageVariant> = Vec::new();
                v.push(MessageVariant::SetRank { rank: Rank::Number(n) });
                Ok(v)
            },
            Err(e) => Err(e),
        },
        Action::SetMetaRank(m) => match p.set_meta_rank(id, m) {
            Ok(()) => {
                let mut v: Vec<MessageVariant> = Vec::new();
                v.push(MessageVariant::SetMetaRank { metarank: m });
                Ok(v)
            },
            Err(e) => Err(e),
        },
        Action::SetMaxRank(rank) => {
            p.set_max_rank(rank);
            let mut v: Vec<MessageVariant> = Vec::new();
            v.push(MessageVariant::SetMaxRank { rank });
            Ok(v)
        },
        Action::SetLandlord(l) => match p.set_landlord(l) {
            Ok(()) => {
                let mut v: Vec<MessageVariant> = Vec::new();
                v.push(MessageVariant::SetLandlord { landlord: l });
                Ok(v)
            },
            Err(e) => Err(e),
        },
        Action::SetLandlordEmoji(e) => {
            let shown = match &e {
                Some(a) => a.clone(),
                None => String::from_str("(当庄)"),
            };
            proof {
                reveal_strlit("(当庄)");
            }
            match p.set_landlord_emoji(e) {
                Ok(()) => {
                    let mut v: Vec<MessageVariant> = Vec::new();
                    v.push(MessageVariant::SetLandlordEmoji { emoji: shown });
                    Ok(v)
                },
                Err(err) => Err(err),
            }
        },
        _ => {
            return Err(GameError::WrongPhase);
        },
    };
    match res {
        Ok(v) => Ok(v),
        Err(e) => Err(GameError::Settings { source: e }),
    }
}

/// A change of a policy announced when it changes, while setting up.
#[verifier::spinoff_prover]
fn setup_change(p: &mut PropagatedState, action: Action, id: PlayerID) -> (r: Result<Vec<MessageVariant>, GameError>)
    requires
        is_change_action(action),
    ensures
        r matches Ok(msgs) ==> setup_messages(action, msgs@),
        setup_done_change(*old(p), action, id, *final(p), r),
{
    let res = match action {
        Action::SetAdvancementPolicy(policy) => p.set_advancement_policy(policy),
        Action::SetKittyPenalty(penalty) => p.set_kitty_penalty(penalty),
        Action::SetKittyBidPolicy(policy) => p.set_kitty_bid_policy(policy),
        Action::SetTrickDrawPolicy(policy) => p.set_trick_draw_policy(policy),
        Action::SetThrowPenalty(penalty) => p.set_throw_penalty(penalty),
        Action::SetThrowEvaluationPolicy(policy) => p.set_throw_evaluation_policy(policy),
        Action::SetPlayTakebackPolicy(policy) => p.set_play_takeback_policy(policy),
        Action::SetBidTakebackPolicy(policy) => p.set_bid_takeback_policy(policy),
        Action::SetKittyTheftPolicy(policy) => p.set_kitty_theft_policy(policy),
        Action::SetGameShadowingPolicy(policy) => p.set_user_multiple_game_session_policy(policy),
        Action::SetGameStartPolicy(policy) => p.set_game_start_policy(policy),
        _ => {
            return Err(GameError::WrongPhase);
        },
    };
    match res {
        Ok(v) => Ok(v),
        Err(e) => Err(GameError::Settings { source: e }),
    }
}

/// A change of a setting announced whenever set, while setting up.
#[verifier::spinoff_prover]
fn setup_toggle(p: &mut PropagatedState, action: Action, id: PlayerID) -> (r: Result<Vec<MessageVariant>, GameError>)
    requires
        is_setup_action(action) && !is_roster_action(action) && !is_people_action(action) && !is_change_action(action),
    ensures
        r matches Ok(msgs) ==> setup_messages(action, msgs@),
        setup_done_toggle(*old(p), action, id, *final(p), r),
{
    let res = match action {
        Action::SetFriendSelectionPolicy(policy) => p.set_friend_selection_policy(policy),
        Action::SetMultipleJoinPolicy(policy) => p.set_multiple_join_policy(policy),
        Action::SetFirstLandlordSelectionPolicy(policy) => p.set_first_landlord_selection_policy(policy),
        Action::SetBidPolicy(policy) => p.set_bid_policy(policy),
        Action::SetBidReinforcementPolicy(policy) => p.set_bid_reinforcement_policy(policy),
        Action::SetJokerBidPolicy(policy) => p.set_joker_bid_policy(policy),
        Action::SetHideLandlordsPoints(hide) => match p.hide_landlord_points(hide) {
            Ok(m) => {
                let mut v: Vec<MessageVariant> = Vec::new();
                v.push(m);
                Ok(v)
            },
            Err(e) => Err(e),
        },
        Action::SetHidePlayedCards(hide) => match p.hide_played_cards(hide) {
            Ok(m) => {
                let mut v: Vec<MessageVariant> = Vec::new();
                v.push(m);
                Ok(v)
            },
            Err(e) => Err(e),
        },
        Action::SetGameMode(mode) => p.set_game_mode(mode),
        Action::SetShouldRevealKittyAtEndOfGame(reveal) => p.set_should_reveal_kitty_at_end_of_game(reveal),
        Action::SetHideThrowHaltingPlayer(hide) => p.set_hide_throw_halting_player(hide),
        _ => {
            return Err(GameError::WrongPhase);
        },
    };
    match res {
        Ok(v) => Ok(v),
        Err(e) => Err(GameError::Settings { source: e }),
    }
}

fn is_change_action_exec(action: &Action) -> (r: bool)
    ensures
        r == is_change_action(*action),
{
    match action {
        Action::SetAdvancementPolicy(_) | Action::SetKittyPenalty(_) | Action::SetKittyBidPolicy(_) | Action::SetTrickDrawPolicy(_)
        | Action::SetThrowPenalty(_) | Action::SetThrowEvaluationPolicy(_) | Action::SetPlayTakebackPolicy(_)
        | Action::SetBidTakebackPolicy(_) | Action::SetKittyTheftPolicy(_) | Action::SetGameShadowingPolicy(_)
        | Action::SetGameStartPolicy(_) => true,
        _ => false,
    }
}

/// A change of the settings or players while setting up, handed to the
/// settings (see `PropagatedState`).
fn setup_action(p: &mut PropagatedState, action: Action, id: PlayerID) -> (r: Result<Vec<MessageVariant>, GameError>)
    requires
        is_setup_action(action),
        setup_ready(*old(p), action),
    ensures
        r matches Ok(msgs) ==> setup_messages(action, msgs@),
        setup_done(*old(p), action, id, *final(p), r),
{
    match action {
        Action::MakeObserver(_) | Action::MakePlayer(_) | Action::SetNumDecks(_) | Action::SetKittySize(_) | Action::SetGameScoringParameters(_) | Action::ReorderPlayers(_) => setup_roster(p, action, id),
        Action::SetRank(_) | Action::SetMetaRank(_) | Action::SetMaxRank(_) | Action::SetLandlord(_) | Action::SetLandlordEmoji(_) => setup_people(p, action, id),
        _ => if is_change_action_exec(&action) {
            setup_change(p, action, id)
        } else {
            setup_toggle(p, action, id)
        },
    }
}

/// The plays in a trick that are owed success: a legal follow of a trick
/// already led by the player in turn, ending a trick that everyone played
/// when its winner is known, and taking back one's own last play where the
/// room allows it.
pub open spec fn owed_success(s: GameState, action: Action, id: PlayerID) -> bool {
    match s {
        GameState::Play(p) => !p.ended_early() && match action {
            Action::PlayCards(cards) => p.follows_legally(id, cards@),
            Action::PlayCardsWithHint(cards, _) => p.follows_legally(id, cards@),
            Action::EndTrick => p.trick_spec().queue().len() == 0 && p.trick_spec().plays().len() > 0 && p.winner_known(),
            Action::TakeBackCards => p.propagated_spec().play_takeback_policy_setting() != PlayTakebackPolicy::NoPlayTakeback
                && p.trick_spec().plays().len() > 0 && p.trick_spec().plays().last().id == id,
            _ => false,
        },
        _ => false,
    }
}

/// What taking an action does (see `GameState::interact`): an action that the
/// phase does not take is refused with the game unchanged; a taken action
/// ends in the phase that follows it, or fails and leaves the phase; a reset,
/// the start of the game, a bid, picking up the kitty and the early refusals
/// are as stated.
pub open spec fn interacted(before: GameState, action: Action, id: PlayerID, after: GameState, r: Result<Vec<MessageVariant>, GameError>) -> bool {
    &&& !accepts(before, action) ==> r == Err::<Vec<MessageVariant>, GameError>(GameError::WrongPhase) && after == before
    &&& accepts(before, action) ==> {
        &&& r matches Ok(msgs) ==> action_messages(action, msgs@) && phase_after(before, action, after)
        &&& r is Err ==> same_phase(before, after)
    }
    &&& action is ResetGame ==> match before {
        GameState::Initialize(_) => r == Err::<Vec<MessageVariant>, GameError>(GameError::GameNotStarted) && after == before,
        _ => match r {
            Ok(msgs) => after matches GameState::Initialize(init) && resets(before.propagated_spec(), Ok((init, msgs))),
            Err(e) => after == before && resets(before.propagated_spec(), Err(e)),
        },
    }
    &&& action is StartGame && before is Initialize ==> {
        &&& start_error(before.propagated_spec(), id) matches Some(e) ==> r == Err::<Vec<MessageVariant>, GameError>(e)
        &&& r is Ok ==> (after matches GameState::Draw(dp) && dealt_from(before.propagated_spec(), dp))
        &&& r is Err ==> after == before
    }
    &&& bid_accepted(before, action, id, r is Ok)
    &&& accepts(before, action) && action is Bid && r is Err ==> r == Err::<Vec<MessageVariant>, GameError>(GameError::InvalidBid)
    &&& (action is PickUpKitty && before is Exchange && r is Ok) ==> (r matches Ok(msgs) && msgs@ == seq![MessageVariant::PickedUpCards])
    &&& refused_early(before, action, id) matches Some(e) ==> r == Err::<Vec<MessageVariant>, GameError>(e) && after == before
    &&& owed_success(before, action, id) ==> r is Ok
}

impl GameState {
    /// Takes an action of the player `id`. An action that the current phase
    /// does not take is refused, with the game unchanged; otherwise it is
    /// handed to the phase (or, while setting up, to the settings), and the
    /// actions that end a phase move the game to the next one: starting the
    /// game deals the cards, picking up the kitty once the deck is drawn
    /// starts the exchange, beginning play starts the tricks, and starting
    /// a new game settles the finished one.
    #[verifier::spinoff_prover]
    pub fn interact(&mut self, action: Action, id: PlayerID) -> (r: Result<Vec<MessageVariant>, GameError>)
        requires
            ready(*old(self), action, id),
        ensures
            !accepts(*old(self), action) ==> r == Err::<Vec<MessageVariant>, GameError>(GameError::WrongPhase) && *final(self) == *old(self),
            accepts(*old(self), action) ==> {
                &&& r matches Ok(msgs) ==> action_messages(action, msgs@) && phase_after(*old(self), action, *final(self))
                &&& r is Err ==> same_phase(*old(self), *final(self))
            },
            action is ResetGame ==> match *old(self) {
                GameState::Initialize(_) => r == Err::<Vec<MessageVariant>, GameError>(GameError::GameNotStarted) && *final(self) == *old(self),
                _ => match r {
                    Ok(msgs) => *final(self) matches GameState::Initialize(init) && resets(old(self).propagated_spec(), Ok((init, msgs))),
                    Err(e) => *final(self) == *old(self) && resets(old(self).propagated_spec(), Err(e)),
                },
            },
            action is StartGame && *old(self) is Initialize ==> {
                &&& start_error(old(self).propagated_spec(), id) matches Some(e) ==> r == Err::<Vec<MessageVariant>, GameError>(e)
                &&& r is Ok ==> (*final(self) matches GameState::Draw(dp) && dealt_from(old(self).propagated_spec(), dp))
                &&& r is Err ==> *final(self) == *old(self)
            },
            bid_accepted(*old(self), action, id, r is Ok),
            accepts(*old(self), action) && action is Bid && r is Err ==> r == Err::<Vec<MessageVariant>, GameError>(GameError::InvalidBid),
            (action is PickUpKitty && *old(self) is Exchange && r is Ok) ==> (r matches Ok(msgs) && msgs@ == seq![MessageVariant::PickedUpCards]),
            refused_early(*old(self), action, id) matches Some(e) ==> r == Err::<Vec<MessageVariant>, GameError>(e) && *final(self) == *old(self),
            owed_success(*old(self), action, id) ==> r is Ok,
    {
        let ghost before = *self;
        match action {
            Action::ResetGame => self.reset(),
            Action::SetChatLink(link) => match self.set_chat_link(link) {
                Ok(()) => Ok(Vec::new()),
                Err(e) => Err(e),
            },
            Action::StartGame => {
                let started = match self {
                    GameState::Initialize(p) => p.start(id),
                    _ => {
                        return Err(GameError::WrongPhase);
                    },
                };
                match started {
                    Ok(dp) => {
                        *self = GameState::Draw(dp);
                        let mut v: Vec<MessageVariant> = Vec::new();
                        v.push(MessageVariant::StartingGame);
                        Ok(v)
                    },
                    Err(e) => Err(e),
                }
            },
            Action::DrawCard => match self {
                GameState::Draw(p) => match p.draw_card(id) {
                    Ok(()) => Ok(Vec::new()),
                    Err(e) => Err(e),
                },
                _ => Err(GameError::WrongPhase),
            },
            Action::RevealCard => match self {
                GameState::Draw(p) => match p.reveal_card() {
                    Ok(m) => {
                        let mut v: Vec<MessageVariant> = Vec::new();
                        v.push(m);
                        Ok(v)
                    },
                    Err(e) => Err(e),
                },
                _ => Err(GameError::WrongPhase),
            },
            Action::Bid(card, count) => {
                let made = match self {
                    GameState::Draw(p) => p.bid(id, card, count),
                    GameState::Exchange(p) => p.bid(id, card, count),
                    _ => {
                        return Err(GameError::WrongPhase);
                    },
                };
                if made {
                    let mut v: Vec<MessageVariant> = Vec::new();
                    v.push(MessageVariant::MadeBid { card, count });
                    Ok(v)
                } else {
                    Err(GameError::InvalidBid)
                }
            },
            Action::TakeBackBid => {
                let res = match self {
                    GameState::Draw(p) => p.take_back_bid(id),
                    GameState::Exchange(p) => p.take_back_bid(id),
                    _ => {
                        return Err(GameError::WrongPhase);
                    },
                };
                match res {
                    Ok(()) => {
                        let mut v: Vec<MessageVariant> = Vec::new();
                        v.push(MessageVariant::TookBackBid);
                        Ok(v)
                    },
                    Err(e) => Err(e),
                }
            },
            Action::PickUpKitty => {
                let advanced = match self {
                    GameState::Draw(p) => Some(p.advance(id)),
                    GameState::Exchange(p) => {
                        return match p.pick_up_cards(id) {
                            Ok(()) => {
                                let mut v: Vec<MessageVariant> = Vec::new();
                                v.push(MessageVariant::PickedUpCards);
                                Ok(v)
                            },
                            Err(e) => Err(e),
                        };
                    },
                    _ => None,
                };
                match advanced {
                    Some(Ok(ex)) => {
                        *self = GameState::Exchange(ex);
                        Ok(Vec::new())
                    },
                    Some(Err(e)) => Err(e),
                    None => Err(GameError::WrongPhase),
                }
            },
            Action::PutDownKitty => match self {
                GameState::Exchange(p) => match p.finalize(id) {
                    Ok(()) => {
                        let mut v: Vec<MessageVariant> = Vec::new();
                        v.push(MessageVariant::PutDownCards);
                        Ok(v)
                    },
                    Err(e) => Err(e),
                },
                _ => Err(GameError::WrongPhase),
            },
            Action::MoveCardToKitty(card) => match self {
                GameState::Exchange(p) => match p.move_card_to_kitty(id, card) {
                    Ok(()) => Ok(Vec::new()),
                    Err(e) => Err(e),
                },
                _ => Err(GameError::WrongPhase),
            },
            Action::MoveCardToHand(card) => match self {
                GameState::Exchange(p) => match p.move_card_to_hand(id, card) {
                    Ok(()) => Ok(Vec::new()),
                    Err(e) => Err(e),
                },
                _ => Err(GameError::WrongPhase),
            },
            Action::SetFriends(friends) => match self {
                GameState::Exchange(p) => match p.set_friends(id, friends) {
                    Ok(()) => Ok(Vec::new()),
                    Err(e) => Err(e),
                },
                _ => Err(GameError::WrongPhase),
            },
            Action::BeginPlay => {
                let advanced = match self {
                    GameState::Exchange(p) => p.advance(id),
                    _ => {
                        return Err(GameError::WrongPhase);
                    },
                };
                match advanced {
                    Ok(pp) => {
                        *self = GameState::Play(pp);
                        Ok(Vec::new())
                    },
                    Err(e) => Err(e),
                }
            },
            Action::PlayCards(cards) => match self {
                GameState::Play(p) => p.play_cards(id, cards.as_slice()),
                _ => Err(GameError::WrongPhase),
            },
            Action::PlayCardsWithHint(cards, hint) => match self {
                GameState::Play(p) => p.play_cards_with_hint(id, cards.as_slice(), Some(hint.as_slice())),
                _ => Err(GameError::WrongPhase),
            },
            Action::EndTrick => match self {
                GameState::Play(p) => p.finish_trick(),
                _ => Err(GameError::WrongPhase),
            },
            Action::TakeBackCards => match self {
                GameState::Play(p) => match p.take_back_cards(id) {
                    Ok(()) => {
                        let mut v: Vec<MessageVariant> = Vec::new();
                        v.push(MessageVariant::TookBackPlay);
                        Ok(v)
                    },
                    Err(e) => Err(e),
                },
                _ => Err(GameError::WrongPhase),
            },
            Action::StartNewGame => {
                let finished = match self {
                    GameState::Play(p) => p.finish_game(),
                    _ => {
                        return Err(GameError::WrongPhase);
                    },
                };
                match finished {
                    Ok((init, _landlord_won, msgs)) => {
                        *self = GameState::Initialize(init);
                        Ok(msgs)
                    },
                    Err(e) => Err(e),
                }
            },
            Action::Beep => Err(GameError::WrongPhase),
            _ => match self {
                GameState::Initialize(p) => setup_action(p.propagated_mut(), action, id),
                _ => Err(GameError::WrongPhase),
            },
        }
    }
}

/// A game that players act on, one action at a time.
pub struct InteractiveGame {
    state: GameState,
}

impl InteractiveGame {
    pub closed spec fn state_spec(self) -> GameState {
        self.state
    }

    /// A new game, being set up, with nobody in it yet.
    pub fn new() -> (r: Self)
        ensures
            r.state_spec() matches GameState::Initialize(p) && p.propagated_spec().players_spec().len() == 0
                && p.propagated_spec().observers_spec().len() == 0,
    {
        InteractiveGame { state: GameState::Initialize(InitializePhase::new()) }
    }

    pub fn new_from_state(state: GameState) -> (r: Self)
        ensures
            r.state_spec() == state,
    {
        InteractiveGame { state }
    }

    pub fn into_state(self) -> (r: GameState)
        ensures
            r == self.state_spec(),
    {
        self.state
    }

    pub fn state(&self) -> (r: &GameState)
        ensures
            *r == self.state_spec(),
    {
        &self.state
    }

    /// Joins the game (see `GameState::register`).
    pub fn register(&mut self, name: String) -> (r: Result<(PlayerID, Vec<MessageVariant>), GameError>)
        requires
            old(self).state_spec().propagated_spec().next_id() < usize::MAX,
            old(self).state_spec() is Initialize ==> old(self).state_spec().propagated_spec().can_recount(
                old(self).state_spec().propagated_spec().players_spec().len() + 1int,
            ),
        ensures
            old(self).state_spec().known_id(name@) matches Some(pid) ==> final(self).state_spec() == old(self).state_spec()
                && (r matches Ok((id, msgs)) && id == pid && msgs@.len() == 1),
    {
        self.state.register(name)
    }

    /// Removes someone from the game (see `GameState::kick`).
    pub fn kick(&mut self, target: PlayerID) -> (r: Result<Vec<MessageVariant>, GameError>)
        requires
            old(self).state_spec() is Initialize ==> old(self).state_spec().propagated_spec().can_recount(
                without_id(old(self).state_spec().propagated_spec().players_spec(), target).len() as int,
            ),
        ensures
            crate::game_state::kicked(old(self).state_spec(), target, final(self).state_spec(), r),
    {
        self.state.kick(target)
    }

    /// Takes an action of the player `id` (see `GameState::interact`).
    pub fn interact(&mut self, action: Action, id: PlayerID) -> (r: Result<Vec<MessageVariant>, GameError>)
        requires
            ready(old(self).state_spec(), action, id),
        ensures
            interacted(old(self).state_spec(), action, id, final(self).state_spec(), r),
    {
        self.state.interact(action, id)
    }

    /// The name of a player or observer (see `GameState::player_name`).
    pub fn player_name(&self, id: PlayerID) -> (r: Result<&str, GameError>)
        ensures
            r is Err <==> !crate::settings::id_in(self.state_spec().propagated_spec().players_spec(), id)
                && !crate::settings::id_in(self.state_spec().propagated_spec().observers_spec(), id),
    {
        self.state.player_name(id)
    }
}

} // verus!
