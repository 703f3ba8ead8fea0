//! Messages that the game logic emits for the players to see.

use vstd::prelude::*;

use crate::bidding::{BidPolicy, BidReinforcementPolicy, BidTakebackPolicy, JokerBidPolicy};
use crate::scoring::GameScoringParameters;
use crate::settings::{
    AdvancementPolicy, FirstLandlordSelectionPolicy, FriendSelectionPolicy, GameModeSettings, GameShadowingPolicy,
    GameStartPolicy, KittyBidPolicy, KittyPenalty, KittyTheftPolicy, MultipleJoinPolicy, PlayTakebackPolicy, ThrowPenalty,
};
use crate::trick::{ThrowEvaluationPolicy, TrickDrawPolicy};
use crate::game_state::play_phase::PlayerGameFinishedResult;
use crate::types::{Card, PlayerID, Rank};

verus! {

/// An event worth telling the players about.
#[derive(Debug)]
#[allow(inconsistent_fields)]
pub enum MessageVariant {
    /// A player played these cards.
    PlayedCards { cards: Vec<Card> },
    /// A throw was beaten by cards held by another player (hidden when the
    /// game hides who halted a throw), so only part of it was played.
    ThrowFailed { original_cards: Vec<Card>, better_player: Option<PlayerID> },
    TookBackPlay,
    TookBackBid,
    MadeBid { card: Card, count: usize },
    JoinedGame { player: PlayerID },
    LeftGame { name: String },
    GameModeSet { game_mode: GameModeSettings },
    NumDecksSet { num_decks: Option<usize> },
    KittySizeSet { size: Option<usize> },
    FriendSelectionPolicySet { policy: FriendSelectionPolicy },
    FirstLandlordSelectionPolicySet { policy: FirstLandlordSelectionPolicy },
    BidPolicySet { policy: BidPolicy },
    ShouldRevealKittyAtEndOfGameSet { should_reveal: bool },
    SetDefendingPointVisibility { visible: bool },
    SetCardVisibility { visible: bool },
    ThrowPenaltySet { throw_penalty: ThrowPenalty },
    KittyPenaltySet { kitty_penalty: KittyPenalty },
    KittyBidPolicySet { policy: KittyBidPolicy },
    TrickDrawPolicySet { policy: TrickDrawPolicy },
    ThrowEvaluationPolicySet { policy: ThrowEvaluationPolicy },
    PlayTakebackPolicySet { policy: PlayTakebackPolicy },
    BidTakebackPolicySet { policy: BidTakebackPolicy },
    AdvancementPolicySet { policy: AdvancementPolicy },
    KittyTheftPolicySet { policy: KittyTheftPolicy },
    GameShadowingPolicySet { policy: GameShadowingPolicy },
    GameStartPolicySet { policy: GameStartPolicy },
    GameScoringParametersChanged { parameters: GameScoringParameters, old_parameters: GameScoringParameters },
    /// A player's cards made them a friend of the landlord.
    JoinedTeam { player: PlayerID, already_joined: bool },
    TrickWon { winner: PlayerID, points: usize },
    PointsInKitty { points: usize, multiplier: usize },
    EndOfGameKittyReveal { cards: Vec<Card> },
    RankAdvanced { player: PlayerID, new_rank: Rank },
    AdvancementBlocked { player: PlayerID, rank: Rank },
    /// How the game went for each player, by name.
    GameFinished { result: Vec<(String, PlayerGameFinishedResult)> },
    EndOfGameSummary { landlord_won: bool, non_landlords_points: isize },
    BonusLevelEarned,
    NewLandlordForNextGame { landlord: PlayerID },
    ResettingGame,
    ResetRequested,
    ResetCanceled,
    StartingGame,
    /// A player joined again under a name already in the game.
    JoinedGameAgain { player: PlayerID, game_shadowing_policy: GameShadowingPolicy },
    MultipleJoinPolicySet { policy: MultipleJoinPolicy },
    BidReinforcementPolicySet { policy: BidReinforcementPolicy },
    JokerBidPolicySet { policy: JokerBidPolicy },
    NumFriendsSet { num_friends: Option<usize> },
    SetLandlord { landlord: Option<PlayerID> },
    SetLandlordEmoji { emoji: String },
    SetRank { rank: Rank },
    SetMetaRank { metarank: usize },
    SetMaxRank { rank: Rank },
    PickedUpCards,
    PutDownCards,
    RevealedCardFromKitty,
    GameEndedEarly,
    HideThrowHaltingPlayer { set: bool },
}

/// The same message, where scoring parameters count as the same when all
/// their settings and adjustments are.
pub open spec fn same_message(a: MessageVariant, b: MessageVariant) -> bool {
    match (a, b) {
        (
            MessageVariant::GameScoringParametersChanged { parameters: p1, old_parameters: o1 },
            MessageVariant::GameScoringParametersChanged { parameters: p2, old_parameters: o2 },
        ) => p1.same_parameters(p2) && o1.same_parameters(o2),
        _ => a == b,
    }
}

/// The same messages, in the same order.
pub open spec fn same_messages(a: Seq<MessageVariant>, b: Seq<MessageVariant>) -> bool {
    &&& a.len() == b.len()
    &&& forall|i: int| 0 <= i < a.len() ==> same_message(#[trigger] a[i], b[i])
}

/// Messages that are the same stay the same with the same messages before
/// and after them.
pub proof fn lemma_same_messages_concat(a: Seq<MessageVariant>, b: Seq<MessageVariant>, pre: Seq<MessageVariant>, post: Seq<MessageVariant>)
    requires
        same_messages(a, b),
    ensures
        same_messages(pre + a + post, pre + b + post),
{
    assert forall|i: int| 0 <= i < (pre + a + post).len() implies same_message(#[trigger] (pre + a + post)[i], (pre + b + post)[i]) by {
        if i < pre.len() {
        } else if i < pre.len() + a.len() {
            assert((pre + a + post)[i] == a[i - pre.len()]);
            assert((pre + b + post)[i] == b[i - pre.len()]);
        } else {
            assert((pre + a + post)[i] == post[i - pre.len() - a.len()]);
            assert((pre + b + post)[i] == post[i - pre.len() - b.len()]);
        }
    }
}

} // verus!
