//! The messages of a game in words, as the players read them.

use vstd::prelude::*;

use crate::bidding::{BidPolicy, BidReinforcementPolicy, BidTakebackPolicy, JokerBidPolicy};
use crate::game_state::GameError;
use crate::game_state::GameState;
use crate::message::MessageVariant;
use crate::settings::{
    first_with_id, id_in, AdvancementPolicy, FirstLandlordSelectionPolicy, FriendSelectionPolicy, GameModeSettings,
    GameShadowingPolicy, GameStartPolicy, KittyBidPolicy, KittyPenalty, KittyTheftPolicy, MultipleJoinPolicy,
    PlayTakebackPolicy, PropagatedState, ThrowPenalty,
};
use crate::trick::{ThrowEvaluationPolicy, TrickDrawPolicy, UnitLike};
use crate::types::{card_code, card_label, number_text, text_then_char, Card, PlayerID, Rank};

verus! {

/// The digit for a number below ten.
pub open spec fn digit(d: nat) -> char {
    if d == 0 { '0' } else if d == 1 { '1' } else if d == 2 { '2' } else if d == 3 { '3' } else if d == 4 { '4' }
    else if d == 5 { '5' } else if d == 6 { '6' } else if d == 7 { '7' } else if d == 8 { '8' } else { '9' }
}

/// A number written in decimal.
pub open spec fn decimal_text(n: nat) -> Seq<char>
    decreases n,
{
    if n < 10 {
        seq![digit(n)]
    } else {
        decimal_text(n / 10).push(digit(n % 10))
    }
}

/// A signed number written in decimal, with a minus sign when negative.
pub open spec fn signed_text(i: int) -> Seq<char> {
    if i < 0 {
        seq!['-'] + decimal_text((-i) as nat)
    } else {
        decimal_text(i as nat)
    }
}

/// The name of a rank: its number, or `NT` for no-trump.
pub open spec fn rank_text(r: Rank) -> Seq<char> {
    match r {
        Rank::Number(n) => number_text(n),
        Rank::NoTrump => seq!['N', 'T'],
    }
}

/// The playing-card glyphs of some cards.
pub open spec fn glyphs(cards: Seq<Card>) -> Seq<char> {
    Seq::new(cards.len(), |i: int| card_code(cards[i]) as char)
}

/// The name of the first player, else the first observer, with the id.
pub open spec fn name_of(p: PropagatedState, id: PlayerID) -> Option<Seq<char>> {
    if id_in(p.players_spec(), id) {
        Some(first_with_id(p.players_spec(), id).name@)
    } else if id_in(p.observers_spec(), id) {
        Some(first_with_id(p.observers_spec(), id).name@)
    } else {
        None
    }
}

fn digit_str(d: usize) -> (r: &'static str)
    requires
        d < 10,
    ensures
        r@ == seq![digit(d as nat)],
{
    proof {
        reveal_strlit("0");
        reveal_strlit("1");
        reveal_strlit("2");
        reveal_strlit("3");
        reveal_strlit("4");
        reveal_strlit("5");
        reveal_strlit("6");
        reveal_strlit("7");
        reveal_strlit("8");
        reveal_strlit("9");
    }
    if d == 0 { "0" } else if d == 1 { "1" } else if d == 2 { "2" } else if d == 3 { "3" } else if d == 4 { "4" }
    else if d == 5 { "5" } else if d == 6 { "6" } else if d == 7 { "7" } else if d == 8 { "8" } else { "9" }
}

/// A number written in decimal.
pub fn decimal(n: usize) -> (r: String)
    ensures
        r@ == decimal_text(n as nat),
    decreases n,
{
    if n < 10 {
        String::from_str(digit_str(n))
    } else {
        let mut s = decimal(n / 10);
        s.append(digit_str(n % 10));
        s
    }
}

/// A signed number written in decimal.
pub fn signed_decimal(i: isize) -> (r: String)
    ensures
        r@ == signed_text(i as int),
{
    if i < 0 {
        let magnitude: usize = (-(i + 1)) as usize + 1;
        let mut s = String::from_str("-");
        proof {
            reveal_strlit("-");
        }
        s.append(decimal(magnitude).as_str());
        s
    } else {
        decimal(i as usize)
    }
}

/// The name of a rank.
pub fn rank_str(r: Rank) -> (s: &'static str)
    ensures
        s@ == rank_text(r),
{
    proof {
        reveal_strlit("NT");
    }
    match r {
        Rank::Number(n) => n.as_str(),
        Rank::NoTrump => "NT",
    }
}

/// The playing-card glyphs of some cards.
pub fn glyph_string(cards: &[Card]) -> (r: String)
    ensures
        r@ == glyphs(cards@),
{
    let mut s = String::new();
    let mut i: usize = 0;
    while i < cards.len()
        invariant
            i <= cards.len(),
            s@ == glyphs(cards@.subrange(0, i as int)),
        decreases cards.len() - i,
    {
        let c = cards[i].as_char();
        s = text_then_char(s.as_str(), c);
        proof {
            assert(glyphs(cards@.subrange(0, i + 1)) =~= glyphs(cards@.subrange(0, i as int)).push(c));
        }
        i += 1;
    }
    proof {
        assert(cards@.subrange(0, cards@.len() as int) =~= cards@);
    }
    s
}

/// Whether the message is one of those `text_0` writes.
pub open spec fn in_group_0(m: MessageVariant) -> bool {
    m is ResettingGame || m is StartingGame || m is TrickWon || m is RankAdvanced || m is AdvancementBlocked || m is NewLandlordForNextGame || m is PointsInKitty || m is JoinedGame || m is JoinedGameAgain
}

/// The text of the messages of `in_group_0` (see `message_text`).
pub open spec fn text_0(m: MessageVariant, actor: PlayerID, p: PropagatedState) -> Option<Seq<char>> {
    match m {
        MessageVariant::ResettingGame => match name_of(p, actor) { Some(n_actor) => Some(n_actor + " reset the game"@), None => None },
        MessageVariant::StartingGame => match name_of(p, actor) { Some(n_actor) => Some(n_actor + " started the game"@), None => None },
        MessageVariant::TrickWon { winner, points: 0 } => match name_of(p, winner) { Some(n_winner) => Some(n_winner + " wins the trick, but gets no points :("@), None => None },
        MessageVariant::TrickWon { winner, points } => match name_of(p, winner) { Some(n_winner) => Some(n_winner + " wins the trick and gets "@ + decimal_text(points as nat) + " points"@), None => None },
        MessageVariant::RankAdvanced { player, new_rank } => match name_of(p, player) { Some(n_player) => Some(n_player + " has advanced to rank "@ + rank_text(new_rank)), None => None },
        MessageVariant::AdvancementBlocked { player, rank } => match name_of(p, player) { Some(n_player) => Some(n_player + " must defend on rank "@ + rank_text(rank)), None => None },
        MessageVariant::NewLandlordForNextGame { landlord } => match name_of(p, landlord) { Some(n_landlord) => Some(n_landlord + " will start the next game"@), None => None },
        MessageVariant::PointsInKitty { points, multiplier } => Some(decimal_text(points as nat) + " points were buried and are attached to the last trick, with a multiplier of "@ + decimal_text(multiplier as nat)),
        MessageVariant::JoinedGame { player } => match name_of(p, player) { Some(n_player) => Some(n_player + " has joined the game"@), None => None },
        MessageVariant::JoinedGameAgain { player, game_shadowing_policy: GameShadowingPolicy::SingleSessionOnly } => match name_of(p, player) { Some(n_player) => Some(n_player + " has joined the game again, prior connection removed"@), None => None },
        MessageVariant::JoinedGameAgain { player, game_shadowing_policy: GameShadowingPolicy::AllowMultipleSessions } => match name_of(p, player) { Some(n_player) => Some(n_player + " is being shadowed"@), None => None },
        _ => None,
    }
}

/// Whether the message is one of those `text_1` writes.
pub open spec fn in_group_1(m: MessageVariant) -> bool {
    m is JoinedTeam || m is LeftGame || m is AdvancementPolicySet || m is GameScoringParametersChanged || m is KittySizeSet || m is FriendSelectionPolicySet
}

/// The text of the messages of `in_group_1` (see `message_text`).
pub open spec fn text_1(m: MessageVariant, actor: PlayerID, p: PropagatedState) -> Option<Seq<char>> {
    match m {
        MessageVariant::JoinedTeam { player, already_joined: false } => match name_of(p, player) { Some(n_player) => Some(n_player + " has joined the team"@), None => None },
        MessageVariant::JoinedTeam { player, already_joined: true } => match name_of(p, player) { Some(n_player) => Some(n_player + " tried to join the team, but was already a member"@), None => None },
        MessageVariant::LeftGame { name } => Some(name@ + " has left the game"@),
        MessageVariant::AdvancementPolicySet { policy: AdvancementPolicy::FullyUnrestricted } => match name_of(p, actor) { Some(n_actor) => Some(n_actor + " removed all advancement restrictions"@), None => None },
        MessageVariant::AdvancementPolicySet { policy: AdvancementPolicy::Unrestricted } => match name_of(p, actor) { Some(n_actor) => Some(n_actor + " required players to defend on A"@), None => None },
        MessageVariant::AdvancementPolicySet { policy: AdvancementPolicy::DefendPoints } => match name_of(p, actor) { Some(n_actor) => Some(n_actor + " required players to defend on points and A"@), None => None },
        MessageVariant::GameScoringParametersChanged { .. } => match name_of(p, actor) { Some(n_actor) => Some(n_actor + " changed the game's scoring parameters"@), None => None },
        MessageVariant::KittySizeSet { size: Some(size) } => match name_of(p, actor) { Some(n_actor) => Some(n_actor + " set the number of cards in the bottom to "@ + decimal_text(size as nat)), None => None },
        MessageVariant::KittySizeSet { size: None } => match name_of(p, actor) { Some(n_actor) => Some(n_actor + " set the number of cards in the bottom to default"@), None => None },
        MessageVariant::FriendSelectionPolicySet { policy: FriendSelectionPolicy::Unrestricted } => match name_of(p, actor) { Some(n_actor) => Some(n_actor + " allowed any non-trump card to be selected as a friend"@), None => None },
        MessageVariant::FriendSelectionPolicySet { policy: FriendSelectionPolicy::HighestCardNotAllowed } => match name_of(p, actor) { Some(n_actor) => Some(n_actor + " disallowed the highest non-trump card, as well as trump cards, from being selected as a friend"@), None => None },
        _ => None,
    }
}

/// Whether the message is one of those `text_2` writes.
pub open spec fn in_group_2(m: MessageVariant) -> bool {
    m is MultipleJoinPolicySet || m is FirstLandlordSelectionPolicySet || m is BidPolicySet || m is BidReinforcementPolicySet
}

/// The text of the messages of `in_group_2` (see `message_text`).
pub open spec fn text_2(m: MessageVariant, actor: PlayerID, p: PropagatedState) -> Option<Seq<char>> {
    match m {
        MessageVariant::MultipleJoinPolicySet { policy: MultipleJoinPolicy::Unrestricted } => match name_of(p, actor) { Some(n_actor) => Some(n_actor + " allowed players to join the team multiple times"@), None => None },
        MessageVariant::MultipleJoinPolicySet { policy: MultipleJoinPolicy::NoDoubleJoin } => match name_of(p, actor) { Some(n_actor) => Some(n_actor + " prevented players from joining the team multiple times"@), None => None },
        MessageVariant::FirstLandlordSelectionPolicySet { policy: FirstLandlordSelectionPolicy::ByWinningBid } => match name_of(p, actor) { Some(n_actor) => Some(n_actor + " set winning bid to decide both landlord and trump"@), None => None },
        MessageVariant::FirstLandlordSelectionPolicySet { policy: FirstLandlordSelectionPolicy::ByFirstBid } => match name_of(p, actor) { Some(n_actor) => Some(n_actor + " set first bid to decide landlord, winning bid to decide trump"@), None => None },
        MessageVariant::BidPolicySet { policy: BidPolicy::JokerOrHigherSuit } => match name_of(p, actor) { Some(n_actor) => Some(n_actor + " allowed joker or higher suit bids to outbid non-joker bids with the same number of cards"@), None => None },
        MessageVariant::BidPolicySet { policy: BidPolicy::JokerOrGreaterLength } => match name_of(p, actor) { Some(n_actor) => Some(n_actor + " allowed joker bids to outbid non-joker bids with the same number of cards"@), None => None },
        MessageVariant::BidPolicySet { policy: BidPolicy::GreaterLength } => match name_of(p, actor) { Some(n_actor) => Some(n_actor + " required all bids to have more cards than the previous bids"@), None => None },
        MessageVariant::BidReinforcementPolicySet { policy: BidReinforcementPolicy::ReinforceWhileWinning } => match name_of(p, actor) { Some(n_actor) => Some(n_actor + " allowed reinforcing the winning bid"@), None => None },
        MessageVariant::BidReinforcementPolicySet { policy: BidReinforcementPolicy::ReinforceWhileEquivalent } => match name_of(p, actor) { Some(n_actor) => Some(n_actor + " allowed reinforcing bids after they have been overturned"@), None => None },
        MessageVariant::BidReinforcementPolicySet { policy: BidReinforcementPolicy::OverturnOrReinforceWhileWinning } => match name_of(p, actor) { Some(n_actor) => Some(n_actor + " allowed overturning your own bids"@), None => None },
        _ => None,
    }
}

/// Whether the message is one of those `text_3` writes.
pub open spec fn in_group_3(m: MessageVariant) -> bool {
    m is JokerBidPolicySet || m is ShouldRevealKittyAtEndOfGameSet || m is NumDecksSet || m is NumFriendsSet || m is GameModeSet
}

/// The text of the messages of `in_group_3` (see `message_text`).
pub open spec fn text_3(m: MessageVariant, actor: PlayerID, p: PropagatedState) -> Option<Seq<char>> {
    match m {
        MessageVariant::JokerBidPolicySet { policy: JokerBidPolicy::BothNumDecks } => match name_of(p, actor) { Some(n_actor) => Some(n_actor + " required no-trump bids to have every low or high joker"@), None => None },
        MessageVariant::JokerBidPolicySet { policy: JokerBidPolicy::LJNumDecksHJNumDecksLessOne } => match name_of(p, actor) { Some(n_actor) => Some(n_actor + " required low no-trump bids to have every low joker (one less required for high joker)"@), None => None },
        MessageVariant::JokerBidPolicySet { policy: JokerBidPolicy::BothTwoOrMore } => match name_of(p, actor) { Some(n_actor) => Some(n_actor + " required no-trump bids to have at least two low or high jokers"@), None => None },
        MessageVariant::ShouldRevealKittyAtEndOfGameSet { should_reveal: true } => match name_of(p, actor) { Some(n_actor) => Some(n_actor + " enabled the kitty to be revealed at the end of each game"@), None => None },
        MessageVariant::ShouldRevealKittyAtEndOfGameSet { should_reveal: false } => match name_of(p, actor) { Some(n_actor) => Some(n_actor + " disabled the kitty from being revealed at the end of each game"@), None => None },
        MessageVariant::NumDecksSet { num_decks: Some(num_decks) } => match name_of(p, actor) { Some(n_actor) => Some(n_actor + " set the number of decks to "@ + decimal_text(num_decks as nat)), None => None },
        MessageVariant::NumDecksSet { num_decks: None } => match name_of(p, actor) { Some(n_actor) => Some(n_actor + " set the number of decks to default"@), None => None },
        MessageVariant::NumFriendsSet { num_friends: Some(num_friends) } => match name_of(p, actor) { Some(n_actor) => Some(n_actor + " set the number of friends to "@ + decimal_text(num_friends as nat)), None => None },
        MessageVariant::NumFriendsSet { num_friends: None } => match name_of(p, actor) { Some(n_actor) => Some(n_actor + " set the number of friends to default"@), None => None },
        MessageVariant::GameModeSet { game_mode: GameModeSettings::Tractor } => match name_of(p, actor) { Some(n_actor) => Some(n_actor + " set the game mode to Tractor"@), None => None },
        MessageVariant::GameModeSet { game_mode: GameModeSettings::FindingFriends { num_friends: None } } => match name_of(p, actor) { Some(n_actor) => Some(n_actor + " set the game mode to Finding Friends"@), None => None },
        MessageVariant::GameModeSet { game_mode: GameModeSettings::FindingFriends { num_friends: Some(1) } } => match name_of(p, actor) { Some(n_actor) => Some(n_actor + " set the game mode to Finding Friends with 1 friend"@), None => None },
        MessageVariant::GameModeSet { game_mode: GameModeSettings::FindingFriends { num_friends: Some(friends) } } => match name_of(p, actor) { Some(n_actor) => Some(n_actor + " set the game mode to Finding Friends with "@ + decimal_text(friends as nat) + " friends"@), None => None },
        _ => None,
    }
}

/// Whether the message is one of those `text_4` writes.
pub open spec fn in_group_4(m: MessageVariant) -> bool {
    m is TookBackBid || m is TookBackPlay || m is PlayedCards || m is EndOfGameKittyReveal || m is ThrowFailed || m is SetDefendingPointVisibility || m is SetCardVisibility
}

/// The text of the messages of `in_group_4` (see `message_text`).
pub open spec fn text_4(m: MessageVariant, actor: PlayerID, p: PropagatedState) -> Option<Seq<char>> {
    match m {
        MessageVariant::TookBackBid => match name_of(p, actor) { Some(n_actor) => Some(n_actor + " took back their last bid"@), None => None },
        MessageVariant::TookBackPlay => match name_of(p, actor) { Some(n_actor) => Some(n_actor + " took back their last play"@), None => None },
        MessageVariant::PlayedCards { cards } => match name_of(p, actor) { Some(n_actor) => Some(n_actor + " played "@ + glyphs(cards@)), None => None },
        MessageVariant::EndOfGameKittyReveal { cards } => Some(glyphs(cards@) + " in kitty"@),
        MessageVariant::ThrowFailed { original_cards, better_player: Some(better_player) } => match name_of(p, actor) { Some(n_actor) => match name_of(p, better_player) { Some(n_better_player) => Some(n_actor + " tried to throw "@ + glyphs(original_cards@) + ", but "@ + n_better_player + " can beat it"@), None => None }, None => None },
        MessageVariant::ThrowFailed { original_cards, better_player: None } => match name_of(p, actor) { Some(n_actor) => Some(n_actor + " tried to throw "@ + glyphs(original_cards@) + ", but someone can beat it"@), None => None },
        MessageVariant::SetDefendingPointVisibility { visible: true } => match name_of(p, actor) { Some(n_actor) => Some(n_actor + " made the defending team's points visible"@), None => None },
        MessageVariant::SetDefendingPointVisibility { visible: false } => match name_of(p, actor) { Some(n_actor) => Some(n_actor + " hid the defending team's points"@), None => None },
        MessageVariant::SetCardVisibility { visible: true } => match name_of(p, actor) { Some(n_actor) => Some(n_actor + " made the played cards visible in the chat"@), None => None },
        MessageVariant::SetCardVisibility { visible: false } => match name_of(p, actor) { Some(n_actor) => Some(n_actor + " hid the played cards from the chat"@), None => None },
        _ => None,
    }
}

/// Whether the message is one of those `text_5` writes.
pub open spec fn in_group_5(m: MessageVariant) -> bool {
    m is SetLandlord || m is SetLandlordEmoji || m is SetRank || m is SetMetaRank || m is SetMaxRank || m is MadeBid || m is KittyPenaltySet || m is ThrowPenaltySet
}

/// The text of the messages of `in_group_5` (see `message_text`).
pub open spec fn text_5(m: MessageVariant, actor: PlayerID, p: PropagatedState) -> Option<Seq<char>> {
    match m {
        MessageVariant::SetLandlord { landlord: None } => match name_of(p, actor) { Some(n_actor) => Some(n_actor + " set the leader to the winner of the bid"@), None => None },
        MessageVariant::SetLandlord { landlord: Some(landlord) } => match name_of(p, actor) { Some(n_actor) => match name_of(p, landlord) { Some(n_landlord) => Some(n_actor + " set the leader to "@ + n_landlord), None => None }, None => None },
        MessageVariant::SetLandlordEmoji { emoji } => match name_of(p, actor) { Some(n_actor) => Some(n_actor + " set landlord emoji to "@ + emoji@), None => None },
        MessageVariant::SetRank { rank } => match name_of(p, actor) { Some(n_actor) => Some(n_actor + " set their rank to "@ + rank_text(rank)), None => None },
        MessageVariant::SetMetaRank { metarank } => match name_of(p, actor) { Some(n_actor) => Some(n_actor + " set their meta-rank to "@ + decimal_text(metarank as nat)), None => None },
        MessageVariant::SetMaxRank { rank } => match name_of(p, actor) { Some(n_actor) => Some(n_actor + " set the max rank to "@ + rank_text(rank)), None => None },
        MessageVariant::MadeBid { card, count } => match name_of(p, actor) { Some(n_actor) => Some(n_actor + " bid "@ + decimal_text(count as nat) + " "@ + card_label(card)), None => None },
        MessageVariant::KittyPenaltySet { kitty_penalty: KittyPenalty::Times } => match name_of(p, actor) { Some(n_actor) => Some(n_actor + " set the penalty for points in the bottom to twice the size of the last trick"@), None => None },
        MessageVariant::KittyPenaltySet { kitty_penalty: KittyPenalty::Power } => match name_of(p, actor) { Some(n_actor) => Some(n_actor + " set the penalty for points in the bottom to two to the power of the size of the last trick"@), None => None },
        MessageVariant::ThrowPenaltySet { throw_penalty: ThrowPenalty::NoPenalty } => match name_of(p, actor) { Some(n_actor) => Some(n_actor + " removed the throw penalty"@), None => None },
        MessageVariant::ThrowPenaltySet { throw_penalty: ThrowPenalty::TenPointsPerAttempt } => match name_of(p, actor) { Some(n_actor) => Some(n_actor + " set the throw penalty to 10 points per throw"@), None => None },
        _ => None,
    }
}

/// Whether the message is one of those `text_6` writes.
pub open spec fn in_group_6(m: MessageVariant) -> bool {
    m is KittyBidPolicySet || m is TrickDrawPolicySet || m is ThrowEvaluationPolicySet || m is PlayTakebackPolicySet
}

/// The text of the messages of `in_group_6` (see `message_text`).
pub open spec fn text_6(m: MessageVariant, actor: PlayerID, p: PropagatedState) -> Option<Seq<char>> {
    match m {
        MessageVariant::KittyBidPolicySet { policy: KittyBidPolicy::FirstCard } => match name_of(p, actor) { Some(n_actor) => Some(n_actor + " set the bid-from-bottom policy to be the first card revealed"@), None => None },
        MessageVariant::KittyBidPolicySet { policy: KittyBidPolicy::FirstCardOfLevelOrHighest } => match name_of(p, actor) { Some(n_actor) => Some(n_actor + " set the bid-from-bottom policy to be the first card of the appropriate level, or the highest if none are found"@), None => None },
        MessageVariant::TrickDrawPolicySet { policy: TrickDrawPolicy::NoProtections } => match name_of(p, actor) { Some(n_actor) => Some(n_actor + " removed all protections (pair can draw triple)"@), None => None },
        MessageVariant::TrickDrawPolicySet { policy: TrickDrawPolicy::NoFormatBasedDraw } => match name_of(p, actor) { Some(n_actor) => Some(n_actor + " removed format-based forced-plays (pairs do not draw pairs)"@), None => None },
        MessageVariant::TrickDrawPolicySet { policy: TrickDrawPolicy::LongerTuplesProtected } => match name_of(p, actor) { Some(n_actor) => Some(n_actor + " protected longer tuples from being drawn out by shorter ones (pair does not draw triple)"@), None => None },
        MessageVariant::TrickDrawPolicySet { policy: TrickDrawPolicy::OnlyDrawTractorOnTractor } => match name_of(p, actor) { Some(n_actor) => Some(n_actor + " protected tractors from being drawn out by non-tractors"@), None => None },
        MessageVariant::ThrowEvaluationPolicySet { policy: ThrowEvaluationPolicy::All } => match name_of(p, actor) { Some(n_actor) => Some(n_actor + " set throws to be evaluated based on all of the cards"@), None => None },
        MessageVariant::ThrowEvaluationPolicySet { policy: ThrowEvaluationPolicy::Highest } => match name_of(p, actor) { Some(n_actor) => Some(n_actor + " set throws to be evaluated based on the highest card"@), None => None },
        MessageVariant::ThrowEvaluationPolicySet { policy: ThrowEvaluationPolicy::TrickUnitLength } => match name_of(p, actor) { Some(n_actor) => Some(n_actor + " set throws to be evaluated based on the longest component"@), None => None },
        MessageVariant::PlayTakebackPolicySet { policy: PlayTakebackPolicy::AllowPlayTakeback } => match name_of(p, actor) { Some(n_actor) => Some(n_actor + " allowed taking back plays"@), None => None },
        MessageVariant::PlayTakebackPolicySet { policy: PlayTakebackPolicy::NoPlayTakeback } => match name_of(p, actor) { Some(n_actor) => Some(n_actor + " disallowed taking back plays"@), None => None },
        _ => None,
    }
}

/// Whether the message is one of those `text_7` writes.
pub open spec fn in_group_7(m: MessageVariant) -> bool {
    m is BidTakebackPolicySet || m is KittyTheftPolicySet || m is GameShadowingPolicySet || m is GameStartPolicySet || m is RevealedCardFromKitty || m is PickedUpCards
}

/// The text of the messages of `in_group_7` (see `message_text`).
pub open spec fn text_7(m: MessageVariant, actor: PlayerID, p: PropagatedState) -> Option<Seq<char>> {
    match m {
        MessageVariant::BidTakebackPolicySet { policy: BidTakebackPolicy::AllowBidTakeback } => match name_of(p, actor) { Some(n_actor) => Some(n_actor + " allowed taking back bids"@), None => None },
        MessageVariant::BidTakebackPolicySet { policy: BidTakebackPolicy::NoBidTakeback } => match name_of(p, actor) { Some(n_actor) => Some(n_actor + " disallowed taking back bids"@), None => None },
        MessageVariant::KittyTheftPolicySet { policy: KittyTheftPolicy::AllowKittyTheft } => match name_of(p, actor) { Some(n_actor) => Some(n_actor + " allowed stealing the bottom cards after the leader"@), None => None },
        MessageVariant::KittyTheftPolicySet { policy: KittyTheftPolicy::NoKittyTheft } => match name_of(p, actor) { Some(n_actor) => Some(n_actor + " disabled stealing the bottom cards after the leader"@), None => None },
        MessageVariant::GameShadowingPolicySet { policy: GameShadowingPolicy::AllowMultipleSessions } => match name_of(p, actor) { Some(n_actor) => Some(n_actor + " allowed players to be shadowed by joining with the same name"@), None => None },
        MessageVariant::GameShadowingPolicySet { policy: GameShadowingPolicy::SingleSessionOnly } => match name_of(p, actor) { Some(n_actor) => Some(n_actor + " prohibited players from being shadowed"@), None => None },
        MessageVariant::GameStartPolicySet { policy: GameStartPolicy::AllowAnyPlayer } => match name_of(p, actor) { Some(n_actor) => Some(n_actor + " allowed any player to start a game"@), None => None },
        MessageVariant::GameStartPolicySet { policy: GameStartPolicy::AllowLandlordOnly } => match name_of(p, actor) { Some(n_actor) => Some(n_actor + " allowed only landlord to start a game"@), None => None },
        MessageVariant::RevealedCardFromKitty => match name_of(p, actor) { Some(n_actor) => Some(n_actor + " revealed a card from the bottom of the deck"@), None => None },
        MessageVariant::PickedUpCards => match name_of(p, actor) { Some(n_actor) => Some(n_actor + " picked up the bottom cards"@), None => None },
        _ => None,
    }
}

/// Whether the message is one of those `text_8` writes.
pub open spec fn in_group_8(m: MessageVariant) -> bool {
    m is PutDownCards || m is GameFinished || m is GameEndedEarly || m is BonusLevelEarned || m is EndOfGameSummary || m is HideThrowHaltingPlayer || m is ResetRequested || m is ResetCanceled
}

/// The text of the messages of `in_group_8` (see `message_text`).
pub open spec fn text_8(m: MessageVariant, actor: PlayerID, p: PropagatedState) -> Option<Seq<char>> {
    match m {
        MessageVariant::PutDownCards => match name_of(p, actor) { Some(n_actor) => Some(n_actor + " put down the bottom cards"@), None => None },
        MessageVariant::GameFinished { .. } => Some("The game has finished"@),
        MessageVariant::GameEndedEarly => match name_of(p, actor) { Some(n_actor) => Some(n_actor + " ended the game early"@), None => None },
        MessageVariant::BonusLevelEarned => Some("Landlord team earned a bonus level for defending with a smaller team"@),
        MessageVariant::EndOfGameSummary { landlord_won: true, non_landlords_points } => Some("Landlord team won, opposing team only collected "@ + signed_text(non_landlords_points as int) + " points"@),
        MessageVariant::EndOfGameSummary { landlord_won: false, non_landlords_points } => Some("Landlord team lost, opposing team collected "@ + signed_text(non_landlords_points as int) + " points"@),
        MessageVariant::HideThrowHaltingPlayer { set: true } => match name_of(p, actor) { Some(n_actor) => Some(n_actor + " hid the player who prevents throws"@), None => None },
        MessageVariant::HideThrowHaltingPlayer { set: false } => match name_of(p, actor) { Some(n_actor) => Some(n_actor + " un-hid the player who prevents throws"@), None => None },
        MessageVariant::ResetRequested => match name_of(p, actor) { Some(n_actor) => Some(n_actor + " requested to reset the game"@), None => None },
        MessageVariant::ResetCanceled => match name_of(p, actor) { Some(n_actor) => Some(n_actor + " canceled the request to reset the game"@), None => None },
        _ => None,
    }
}

/// The text of a message sent by `actor`, with the names of the players it
/// mentions as the state `p` has them; none when someone it names is not in
/// the game.
pub open spec fn message_text(m: MessageVariant, actor: PlayerID, p: PropagatedState) -> Option<Seq<char>> {
    if in_group_0(m) {
        text_0(m, actor, p)
    } else if in_group_1(m) {
        text_1(m, actor, p)
    } else if in_group_2(m) {
        text_2(m, actor, p)
    } else if in_group_3(m) {
        text_3(m, actor, p)
    } else if in_group_4(m) {
        text_4(m, actor, p)
    } else if in_group_5(m) {
        text_5(m, actor, p)
    } else if in_group_6(m) {
        text_6(m, actor, p)
    } else if in_group_7(m) {
        text_7(m, actor, p)
    } else if in_group_8(m) {
        text_8(m, actor, p)
    } else {
        None
    }
}

impl MessageVariant {
    #[verifier::rlimit(50)]
    #[verifier::spinoff_prover]
    fn text_0_exec(&self, actor: PlayerID, state: &GameState) -> (r: Result<String, GameError>)
        requires
            in_group_0(*self),
        ensures
            match text_0(*self, actor, state.propagated_spec()) {
                Some(t) => r matches Ok(s) && s@ == t,
                None => r == Err::<String, GameError>(GameError::PlayerNotFound),
            },
    {
        match self {
            MessageVariant::ResettingGame => {
                let n_actor = match state.player_name(actor) {
                    Ok(n) => n,
                    Err(e) => {
                        return Err(e);
                    },
                };
                let mut s = String::new();
                s.append(n_actor);
                s.append(" reset the game");
                Ok(s)
            },
            MessageVariant::StartingGame => {
                let n_actor = match state.player_name(actor) {
                    Ok(n) => n,
                    Err(e) => {
                        return Err(e);
                    },
                };
                let mut s = String::new();
                s.append(n_actor);
                s.append(" started the game");
                Ok(s)
            },
            MessageVariant::TrickWon { winner, points: 0 } => {
                let n_winner = match state.player_name(*winner) {
                    Ok(n) => n,
                    Err(e) => {
                        return Err(e);
                    },
                };
                let mut s = String::new();
                s.append(n_winner);
                s.append(" wins the trick, but gets no points :(");
                Ok(s)
            },
            MessageVariant::TrickWon { winner, points } => {
                let n_winner = match state.player_name(*winner) {
                    Ok(n) => n,
                    Err(e) => {
                        return Err(e);
                    },
                };
                let mut s = String::new();
                s.append(n_winner);
                s.append(" wins the trick and gets ");
                s.append(decimal(*points).as_str());
                s.append(" points");
                Ok(s)
            },
            MessageVariant::RankAdvanced { player, new_rank } => {
                let n_player = match state.player_name(*player) {
                    Ok(n) => n,
                    Err(e) => {
                        return Err(e);
                    },
                };
                let mut s = String::new();
                s.append(n_player);
                s.append(" has advanced to rank ");
                s.append(rank_str(*new_rank));
                Ok(s)
            },
            MessageVariant::AdvancementBlocked { player, rank } => {
                let n_player = match state.player_name(*player) {
                    Ok(n) => n,
                    Err(e) => {
                        return Err(e);
                    },
                };
                let mut s = String::new();
                s.append(n_player);
                s.append(" must defend on rank ");
                s.append(rank_str(*rank));
                Ok(s)
            },
            MessageVariant::NewLandlordForNextGame { landlord } => {
                let n_landlord = match state.player_name(*landlord) {
                    Ok(n) => n,
                    Err(e) => {
                        return Err(e);
                    },
                };
                let mut s = String::new();
                s.append(n_landlord);
                s.append(" will start the next game");
                Ok(s)
            },
            MessageVariant::PointsInKitty { points, multiplier } => {
                let mut s = String::new();
                s.append(decimal(*points).as_str());
                s.append(" points were buried and are attached to the last trick, with a multiplier of ");
                s.append(decimal(*multiplier).as_str());
                Ok(s)
            },
            MessageVariant::JoinedGame { player } => {
                let n_player = match state.player_name(*player) {
                    Ok(n) => n,
                    Err(e) => {
                        return Err(e);
                    },
                };
                let mut s = String::new();
                s.append(n_player);
                s.append(" has joined the game");
                Ok(s)
            },
            MessageVariant::JoinedGameAgain { player, game_shadowing_policy: GameShadowingPolicy::SingleSessionOnly } => {
                let n_player = match state.player_name(*player) {
                    Ok(n) => n,
                    Err(e) => {
                        return Err(e);
                    },
                };
                let mut s = String::new();
                s.append(n_player);
                s.append(" has joined the game again, prior connection removed");
                Ok(s)
            },
            MessageVariant::JoinedGameAgain { player, game_shadowing_policy: GameShadowingPolicy::AllowMultipleSessions } => {
                let n_player = match state.player_name(*player) {
                    Ok(n) => n,
                    Err(e) => {
                        return Err(e);
                    },
                };
                let mut s = String::new();
                s.append(n_player);
                s.append(" is being shadowed");
                Ok(s)
            },
            _ => Err(GameError::PlayerNotFound),
        }
    }

    #[verifier::rlimit(50)]
    #[verifier::spinoff_prover]
    fn text_1_exec(&self, actor: PlayerID, state: &GameState) -> (r: Result<String, GameError>)
        requires
            in_group_1(*self),
        ensures
            match text_1(*self, actor, state.propagated_spec()) {
                Some(t) => r matches Ok(s) && s@ == t,
                None => r == Err::<String, GameError>(GameError::PlayerNotFound),
            },
    {
        match self {
            MessageVariant::JoinedTeam { player, already_joined: false } => {
                let n_player = match state.player_name(*player) {
                    Ok(n) => n,
                    Err(e) => {
                        return Err(e);
                    },
                };
                let mut s = String::new();
                s.append(n_player);
                s.append(" has joined the team");
                Ok(s)
            },
            MessageVariant::JoinedTeam { player, already_joined: true } => {
                let n_player = match state.player_name(*player) {
                    Ok(n) => n,
                    Err(e) => {
                        return Err(e);
                    },
                };
                let mut s = String::new();
                s.append(n_player);
                s.append(" tried to join the team, but was already a member");
                Ok(s)
            },
            MessageVariant::LeftGame { name } => {
                let mut s = String::new();
                s.append(name.as_str());
                s.append(" has left the game");
                Ok(s)
            },
            MessageVariant::AdvancementPolicySet { policy: AdvancementPolicy::FullyUnrestricted } => {
                let n_actor = match state.player_name(actor) {
                    Ok(n) => n,
                    Err(e) => {
                        return Err(e);
                    },
                };
                let mut s = String::new();
                s.append(n_actor);
                s.append(" removed all advancement restrictions");
                Ok(s)
            },
            MessageVariant::AdvancementPolicySet { policy: AdvancementPolicy::Unrestricted } => {
                let n_actor = match state.player_name(actor) {
                    Ok(n) => n,
                    Err(e) => {
                        return Err(e);
                    },
                };
                let mut s = String::new();
                s.append(n_actor);
                s.append(" required players to defend on A");
                Ok(s)
            },
            MessageVariant::AdvancementPolicySet { policy: AdvancementPolicy::DefendPoints } => {
                let n_actor = match state.player_name(actor) {
                    Ok(n) => n,
                    Err(e) => {
                        return Err(e);
                    },
                };
                let mut s = String::new();
                s.append(n_actor);
                s.append(" required players to defend on points and A");
                Ok(s)
            },
            MessageVariant::GameScoringParametersChanged { .. } => {
                let n_actor = match state.player_name(actor) {
                    Ok(n) => n,
                    Err(e) => {
                        return Err(e);
                    },
                };
                let mut s = String::new();
                s.append(n_actor);
                s.append(" changed the game's scoring parameters");
                Ok(s)
            },
            MessageVariant::KittySizeSet { size: Some(size) } => {
                let n_actor = match state.player_name(actor) {
                    Ok(n) => n,
                    Err(e) => {
                        return Err(e);
                    },
                };
                let mut s = String::new();
                s.append(n_actor);
                s.append(" set the number of cards in the bottom to ");
                s.append(decimal(*size).as_str());
                Ok(s)
            },
            MessageVariant::KittySizeSet { size: None } => {
                let n_actor = match state.player_name(actor) {
                    Ok(n) => n,
                    Err(e) => {
                        return Err(e);
                    },
                };
                let mut s = String::new();
                s.append(n_actor);
                s.append(" set the number of cards in the bottom to default");
                Ok(s)
            },
            MessageVariant::FriendSelectionPolicySet { policy: FriendSelectionPolicy::Unrestricted } => {
                let n_actor = match state.player_name(actor) {
                    Ok(n) => n,
                    Err(e) => {
                        return Err(e);
                    },
                };
                let mut s = String::new();
                s.append(n_actor);
                s.append(" allowed any non-trump card to be selected as a friend");
                Ok(s)
            },
            MessageVariant::FriendSelectionPolicySet { policy: FriendSelectionPolicy::HighestCardNotAllowed } => {
                let n_actor = match state.player_name(actor) {
                    Ok(n) => n,
                    Err(e) => {
                        return Err(e);
                    },
                };
                let mut s = String::new();
                s.append(n_actor);
                s.append(" disallowed the highest non-trump card, as well as trump cards, from being selected as a friend");
                Ok(s)
            },
            _ => Err(GameError::PlayerNotFound),
        }
    }

    #[verifier::rlimit(50)]
    #[verifier::spinoff_prover]
    fn text_2_exec(&self, actor: PlayerID, state: &GameState) -> (r: Result<String, GameError>)
        requires
            in_group_2(*self),
        ensures
            match text_2(*self, actor, state.propagated_spec()) {
                Some(t) => r matches Ok(s) && s@ == t,
                None => r == Err::<String, GameError>(GameError::PlayerNotFound),
            },
    {
        match self {
            MessageVariant::MultipleJoinPolicySet { policy: MultipleJoinPolicy::Unrestricted } => {
                let n_actor = match state.player_name(actor) {
                    Ok(n) => n,
                    Err(e) => {
                        return Err(e);
                    },
                };
                let mut s = String::new();
                s.append(n_actor);
                s.append(" allowed players to join the team multiple times");
                Ok(s)
            },
            MessageVariant::MultipleJoinPolicySet { policy: MultipleJoinPolicy::NoDoubleJoin } => {
                let n_actor = match state.player_name(actor) {
                    Ok(n) => n,
                    Err(e) => {
                        return Err(e);
                    },
                };
                let mut s = String::new();
                s.append(n_actor);
                s.append(" prevented players from joining the team multiple times");
                Ok(s)
            },
            MessageVariant::FirstLandlordSelectionPolicySet { policy: FirstLandlordSelectionPolicy::ByWinningBid } => {
                let n_actor = match state.player_name(actor) {
                    Ok(n) => n,
                    Err(e) => {
                        return Err(e);
                    },
                };
                let mut s = String::new();
                s.append(n_actor);
                s.append(" set winning bid to decide both landlord and trump");
                Ok(s)
            },
            MessageVariant::FirstLandlordSelectionPolicySet { policy: FirstLandlordSelectionPolicy::ByFirstBid } => {
                let n_actor = match state.player_name(actor) {
                    Ok(n) => n,
                    Err(e) => {
                        return Err(e);
                    },
                };
                let mut s = String::new();
                s.append(n_actor);
                s.append(" set first bid to decide landlord, winning bid to decide trump");
                Ok(s)
            },
            MessageVariant::BidPolicySet { policy: BidPolicy::JokerOrHigherSuit } => {
                let n_actor = match state.player_name(actor) {
                    Ok(n) => n,
                    Err(e) => {
                        return Err(e);
                    },
                };
                let mut s = String::new();
                s.append(n_actor);
                s.append(" allowed joker or higher suit bids to outbid non-joker bids with the same number of cards");
                Ok(s)
            },
            MessageVariant::BidPolicySet { policy: BidPolicy::JokerOrGreaterLength } => {
                let n_actor = match state.player_name(actor) {
                    Ok(n) => n,
                    Err(e) => {
                        return Err(e);
                    },
                };
                let mut s = String::new();
                s.append(n_actor);
                s.append(" allowed joker bids to outbid non-joker bids with the same number of cards");
                Ok(s)
            },
            MessageVariant::BidPolicySet { policy: BidPolicy::GreaterLength } => {
                let n_actor = match state.player_name(actor) {
                    Ok(n) => n,
                    Err(e) => {
                        return Err(e);
                    },
                };
                let mut s = String::new();
                s.append(n_actor);
                s.append(" required all bids to have more cards than the previous bids");
                Ok(s)
            },
            MessageVariant::BidReinforcementPolicySet { policy: BidReinforcementPolicy::ReinforceWhileWinning } => {
                let n_actor = match state.player_name(actor) {
                    Ok(n) => n,
                    Err(e) => {
                        return Err(e);
                    },
                };
                let mut s = String::new();
                s.append(n_actor);
                s.append(" allowed reinforcing the winning bid");
                Ok(s)
            },
            MessageVariant::BidReinforcementPolicySet { policy: BidReinforcementPolicy::ReinforceWhileEquivalent } => {
                let n_actor = match state.player_name(actor) {
                    Ok(n) => n,
                    Err(e) => {
                        return Err(e);
                    },
                };
                let mut s = String::new();
                s.append(n_actor);
                s.append(" allowed reinforcing bids after they have been overturned");
                Ok(s)
            },
            MessageVariant::BidReinforcementPolicySet { policy: BidReinforcementPolicy::OverturnOrReinforceWhileWinning } => {
                let n_actor = match state.player_name(actor) {
                    Ok(n) => n,
                    Err(e) => {
                        return Err(e);
                    },
                };
                let mut s = String::new();
                s.append(n_actor);
                s.append(" allowed overturning your own bids");
                Ok(s)
            },
            _ => Err(GameError::PlayerNotFound),
        }
    }

    #[verifier::rlimit(50)]
    #[verifier::spinoff_prover]
    fn text_3_exec(&self, actor: PlayerID, state: &GameState) -> (r: Result<String, GameError>)
        requires
            in_group_3(*self),
        ensures
            match text_3(*self, actor, state.propagated_spec()) {
                Some(t) => r matches Ok(s) && s@ == t,
                None => r == Err::<String, GameError>(GameError::PlayerNotFound),
            },
    {
        match self {
            MessageVariant::JokerBidPolicySet { policy: JokerBidPolicy::BothNumDecks } => {
                let n_actor = match state.player_name(actor) {
                    Ok(n) => n,
                    Err(e) => {
                        return Err(e);
                    },
                };
                let mut s = String::new();
                s.append(n_actor);
                s.append(" required no-trump bids to have every low or high joker");
                Ok(s)
            },
            MessageVariant::JokerBidPolicySet { policy: JokerBidPolicy::LJNumDecksHJNumDecksLessOne } => {
                let n_actor = match state.player_name(actor) {
                    Ok(n) => n,
                    Err(e) => {
                        return Err(e);
                    },
                };
                let mut s = String::new();
                s.append(n_actor);
                s.append(" required low no-trump bids to have every low joker (one less required for high joker)");
                Ok(s)
            },
            MessageVariant::JokerBidPolicySet { policy: JokerBidPolicy::BothTwoOrMore } => {
                let n_actor = match state.player_name(actor) {
                    Ok(n) => n,
                    Err(e) => {
                        return Err(e);
                    },
                };
                let mut s = String::new();
                s.append(n_actor);
                s.append(" required no-trump bids to have at least two low or high jokers");
                Ok(s)
            },
            MessageVariant::ShouldRevealKittyAtEndOfGameSet { should_reveal: true } => {
                let n_actor = match state.player_name(actor) {
                    Ok(n) => n,
                    Err(e) => {
                        return Err(e);
                    },
                };
                let mut s = String::new();
                s.append(n_actor);
                s.append(" enabled the kitty to be revealed at the end of each game");
                Ok(s)
            },
            MessageVariant::ShouldRevealKittyAtEndOfGameSet { should_reveal: false } => {
                let n_actor = match state.player_name(actor) {
                    Ok(n) => n,
                    Err(e) => {
                        return Err(e);
                    },
                };
                let mut s = String::new();
                s.append(n_actor);
                s.append(" disabled the kitty from being revealed at the end of each game");
                Ok(s)
            },
            MessageVariant::NumDecksSet { num_decks: Some(num_decks) } => {
                let n_actor = match state.player_name(actor) {
                    Ok(n) => n,
                    Err(e) => {
                        return Err(e);
                    },
                };
                let mut s = String::new();
                s.append(n_actor);
                s.append(" set the number of decks to ");
                s.append(decimal(*num_decks).as_str());
                Ok(s)
            },
            MessageVariant::NumDecksSet { num_decks: None } => {
                let n_actor = match state.player_name(actor) {
                    Ok(n) => n,
                    Err(e) => {
                        return Err(e);
                    },
                };
                let mut s = String::new();
                s.append(n_actor);
                s.append(" set the number of decks to default");
                Ok(s)
            },
            MessageVariant::NumFriendsSet { num_friends: Some(num_friends) } => {
                let n_actor = match state.player_name(actor) {
                    Ok(n) => n,
                    Err(e) => {
                        return Err(e);
                    },
                };
                let mut s = String::new();
                s.append(n_actor);
                s.append(" set the number of friends to ");
                s.append(decimal(*num_friends).as_str());
                Ok(s)
            },
            MessageVariant::NumFriendsSet { num_friends: None } => {
                let n_actor = match state.player_name(actor) {
                    Ok(n) => n,
                    Err(e) => {
                        return Err(e);
                    },
                };
                let mut s = String::new();
                s.append(n_actor);
                s.append(" set the number of friends to default");
                Ok(s)
            },
            MessageVariant::GameModeSet { game_mode: GameModeSettings::Tractor } => {
                let n_actor = match state.player_name(actor) {
                    Ok(n) => n,
                    Err(e) => {
                        return Err(e);
                    },
                };
                let mut s = String::new();
                s.append(n_actor);
                s.append(" set the game mode to Tractor");
                Ok(s)
            },
            MessageVariant::GameModeSet { game_mode: GameModeSettings::FindingFriends { num_friends: None } } => {
                let n_actor = match state.player_name(actor) {
                    Ok(n) => n,
                    Err(e) => {
                        return Err(e);
                    },
                };
                let mut s = String::new();
                s.append(n_actor);
                s.append(" set the game mode to Finding Friends");
                Ok(s)
            },
            MessageVariant::GameModeSet { game_mode: GameModeSettings::FindingFriends { num_friends: Some(1) } } => {
                let n_actor = match state.player_name(actor) {
                    Ok(n) => n,
                    Err(e) => {
                        return Err(e);
                    },
                };
                let mut s = String::new();
                s.append(n_actor);
                s.append(" set the game mode to Finding Friends with 1 friend");
                Ok(s)
            },
            MessageVariant::GameModeSet { game_mode: GameModeSettings::FindingFriends { num_friends: Some(friends) } } => {
                let n_actor = match state.player_name(actor) {
                    Ok(n) => n,
                    Err(e) => {
                        return Err(e);
                    },
                };
                let mut s = String::new();
                s.append(n_actor);
                s.append(" set the game mode to Finding Friends with ");
                s.append(decimal(*friends).as_str());
                s.append(" friends");
                Ok(s)
            },
            _ => Err(GameError::PlayerNotFound),
        }
    }

    #[verifier::rlimit(50)]
    #[verifier::spinoff_prover]
    fn text_4_exec(&self, actor: PlayerID, state: &GameState) -> (r: Result<String, GameError>)
        requires
            in_group_4(*self),
        ensures
            match text_4(*self, actor, state.propagated_spec()) {
                Some(t) => r matches Ok(s) && s@ == t,
                None => r == Err::<String, GameError>(GameError::PlayerNotFound),
            },
    {
        match self {
            MessageVariant::TookBackBid => {
                let n_actor = match state.player_name(actor) {
                    Ok(n) => n,
                    Err(e) => {
                        return Err(e);
                    },
                };
                let mut s = String::new();
                s.append(n_actor);
                s.append(" took back their last bid");
                Ok(s)
            },
            MessageVariant::TookBackPlay => {
                let n_actor = match state.player_name(actor) {
                    Ok(n) => n,
                    Err(e) => {
                        return Err(e);
                    },
                };
                let mut s = String::new();
                s.append(n_actor);
                s.append(" took back their last play");
                Ok(s)
            },
            MessageVariant::PlayedCards { cards } => {
                let n_actor = match state.player_name(actor) {
                    Ok(n) => n,
                    Err(e) => {
                        return Err(e);
                    },
                };
                let mut s = String::new();
                s.append(n_actor);
                s.append(" played ");
                s.append(glyph_string(cards.as_slice()).as_str());
                Ok(s)
            },
            MessageVariant::EndOfGameKittyReveal { cards } => {
                let mut s = String::new();
                s.append(glyph_string(cards.as_slice()).as_str());
                s.append(" in kitty");
                Ok(s)
            },
            MessageVariant::ThrowFailed { original_cards, better_player: Some(better_player) } => {
                let n_actor = match state.player_name(actor) {
                    Ok(n) => n,
                    Err(e) => {
                        return Err(e);
                    },
                };
                let n_better_player = match state.player_name(*better_player) {
                    Ok(n) => n,
                    Err(e) => {
                        return Err(e);
                    },
                };
                let mut s = String::new();
                s.append(n_actor);
                s.append(" tried to throw ");
                s.append(glyph_string(original_cards.as_slice()).as_str());
                s.append(", but ");
                s.append(n_better_player);
                s.append(" can beat it");
                Ok(s)
            },
            MessageVariant::ThrowFailed { original_cards, better_player: None } => {
                let n_actor = match state.player_name(actor) {
                    Ok(n) => n,
                    Err(e) => {
                        return Err(e);
                    },
                };
                let mut s = String::new();
                s.append(n_actor);
                s.append(" tried to throw ");
                s.append(glyph_string(original_cards.as_slice()).as_str());
                s.append(", but someone can beat it");
                Ok(s)
            },
            MessageVariant::SetDefendingPointVisibility { visible: true } => {
                let n_actor = match state.player_name(actor) {
                    Ok(n) => n,
                    Err(e) => {
                        return Err(e);
                    },
                };
                let mut s = String::new();
                s.append(n_actor);
                s.append(" made the defending team's points visible");
                Ok(s)
            },
            MessageVariant::SetDefendingPointVisibility { visible: false } => {
                let n_actor = match state.player_name(actor) {
                    Ok(n) => n,
                    Err(e) => {
                        return Err(e);
                    },
                };
                let mut s = String::new();
                s.append(n_actor);
                s.append(" hid the defending team's points");
                Ok(s)
            },
            MessageVariant::SetCardVisibility { visible: true } => {
                let n_actor = match state.player_name(actor) {
                    Ok(n) => n,
                    Err(e) => {
                        return Err(e);
                    },
                };
                let mut s = String::new();
                s.append(n_actor);
                s.append(" made the played cards visible in the chat");
                Ok(s)
            },
            MessageVariant::SetCardVisibility { visible: false } => {
                let n_actor = match state.player_name(actor) {
                    Ok(n) => n,
                    Err(e) => {
                        return Err(e);
                    },
                };
                let mut s = String::new();
                s.append(n_actor);
                s.append(" hid the played cards from the chat");
                Ok(s)
            },
            _ => Err(GameError::PlayerNotFound),
        }
    }

    #[verifier::rlimit(50)]
    #[verifier::spinoff_prover]
    fn text_5_exec(&self, actor: PlayerID, state: &GameState) -> (r: Result<String, GameError>)
        requires
            in_group_5(*self),
        ensures
            match text_5(*self, actor, state.propagated_spec()) {
                Some(t) => r matches Ok(s) && s@ == t,
                None => r == Err::<String, GameError>(GameError::PlayerNotFound),
            },
    {
        match self {
            MessageVariant::SetLandlord { landlord: None } => {
                let n_actor = match state.player_name(actor) {
                    Ok(n) => n,
                    Err(e) => {
                        return Err(e);
                    },
                };
                let mut s = String::new();
                s.append(n_actor);
                s.append(" set the leader to the winner of the bid");
                Ok(s)
            },
            MessageVariant::SetLandlord { landlord: Some(landlord) } => {
                let n_actor = match state.player_name(actor) {
                    Ok(n) => n,
                    Err(e) => {
                        return Err(e);
                    },
                };
                let n_landlord = match state.player_name(*landlord) {
                    Ok(n) => n,
                    Err(e) => {
                        return Err(e);
                    },
                };
                let mut s = String::new();
                s.append(n_actor);
                s.append(" set the leader to ");
                s.append(n_landlord);
                Ok(s)
            },
            MessageVariant::SetLandlordEmoji { emoji } => {
                let n_actor = match state.player_name(actor) {
                    Ok(n) => n,
                    Err(e) => {
                        return Err(e);
                    },
                };
                let mut s = String::new();
                s.append(n_actor);
                s.append(" set landlord emoji to ");
                s.append(emoji.as_str());
                Ok(s)
            },
            MessageVariant::SetRank { rank } => {
                let n_actor = match state.player_name(actor) {
                    Ok(n) => n,
                    Err(e) => {
                        return Err(e);
                    },
                };
                let mut s = String::new();
                s.append(n_actor);
                s.append(" set their rank to ");
                s.append(rank_str(*rank));
                Ok(s)
            },
            MessageVariant::SetMetaRank { metarank } => {
                let n_actor = match state.player_name(actor) {
                    Ok(n) => n,
                    Err(e) => {
                        return Err(e);
                    },
                };
                let mut s = String::new();
                s.append(n_actor);
                s.append(" set their meta-rank to ");
                s.append(decimal(*metarank).as_str());
                Ok(s)
            },
            MessageVariant::SetMaxRank { rank } => {
                let n_actor = match state.player_name(actor) {
                    Ok(n) => n,
                    Err(e) => {
                        return Err(e);
                    },
                };
                let mut s = String::new();
                s.append(n_actor);
                s.append(" set the max rank to ");
                s.append(rank_str(*rank));
                Ok(s)
            },
            MessageVariant::MadeBid { card, count } => {
                let n_actor = match state.player_name(actor) {
                    Ok(n) => n,
                    Err(e) => {
                        return Err(e);
                    },
                };
                let mut s = String::new();
                s.append(n_actor);
                s.append(" bid ");
                s.append(decimal(*count).as_str());
                s.append(" ");
                s.append(card.label().as_str());
                Ok(s)
            },
            MessageVariant::KittyPenaltySet { kitty_penalty: KittyPenalty::Times } => {
                let n_actor = match state.player_name(actor) {
                    Ok(n) => n,
                    Err(e) => {
                        return Err(e);
                    },
                };
                let mut s = String::new();
                s.append(n_actor);
                s.append(" set the penalty for points in the bottom to twice the size of the last trick");
                Ok(s)
            },
            MessageVariant::KittyPenaltySet { kitty_penalty: KittyPenalty::Power } => {
                let n_actor = match state.player_name(actor) {
                    Ok(n) => n,
                    Err(e) => {
                        return Err(e);
                    },
                };
                let mut s = String::new();
                s.append(n_actor);
                s.append(" set the penalty for points in the bottom to two to the power of the size of the last trick");
                Ok(s)
            },
            MessageVariant::ThrowPenaltySet { throw_penalty: ThrowPenalty::NoPenalty } => {
                let n_actor = match state.player_name(actor) {
                    Ok(n) => n,
                    Err(e) => {
                        return Err(e);
                    },
                };
                let mut s = String::new();
                s.append(n_actor);
                s.append(" removed the throw penalty");
                Ok(s)
            },
            MessageVariant::ThrowPenaltySet { throw_penalty: ThrowPenalty::TenPointsPerAttempt } => {
                let n_actor = match state.player_name(actor) {
                    Ok(n) => n,
                    Err(e) => {
                        return Err(e);
                    },
                };
                let mut s = String::new();
                s.append(n_actor);
                s.append(" set the throw penalty to 10 points per throw");
                Ok(s)
            },
            _ => Err(GameError::PlayerNotFound),
        }
    }

    #[verifier::rlimit(50)]
    #[verifier::spinoff_prover]
    fn text_6_exec(&self, actor: PlayerID, state: &GameState) -> (r: Result<String, GameError>)
        requires
            in_group_6(*self),
        ensures
            match text_6(*self, actor, state.propagated_spec()) {
                Some(t) => r matches Ok(s) && s@ == t,
                None => r == Err::<String, GameError>(GameError::PlayerNotFound),
            },
    {
        match self {
            MessageVariant::KittyBidPolicySet { policy: KittyBidPolicy::FirstCard } => {
                let n_actor = match state.player_name(actor) {
                    Ok(n) => n,
                    Err(e) => {
                        return Err(e);
                    },
                };
                let mut s = String::new();
                s.append(n_actor);
                s.append(" set the bid-from-bottom policy to be the first card revealed");
                Ok(s)
            },
            MessageVariant::KittyBidPolicySet { policy: KittyBidPolicy::FirstCardOfLevelOrHighest } => {
                let n_actor = match state.player_name(actor) {
                    Ok(n) => n,
                    Err(e) => {
                        return Err(e);
                    },
                };
                let mut s = String::new();
                s.append(n_actor);
                s.append(" set the bid-from-bottom policy to be the first card of the appropriate level, or the highest if none are found");
                Ok(s)
            },
            MessageVariant::TrickDrawPolicySet { policy: TrickDrawPolicy::NoProtections } => {
                let n_actor = match state.player_name(actor) {
                    Ok(n) => n,
                    Err(e) => {
                        return Err(e);
                    },
                };
                let mut s = String::new();
                s.append(n_actor);
                s.append(" removed all protections (pair can draw triple)");
                Ok(s)
            },
            MessageVariant::TrickDrawPolicySet { policy: TrickDrawPolicy::NoFormatBasedDraw } => {
                let n_actor = match state.player_name(actor) {
                    Ok(n) => n,
                    Err(e) => {
                        return Err(e);
                    },
                };
                let mut s = String::new();
                s.append(n_actor);
                s.append(" removed format-based forced-plays (pairs do not draw pairs)");
                Ok(s)
            },
            MessageVariant::TrickDrawPolicySet { policy: TrickDrawPolicy::LongerTuplesProtected } => {
                let n_actor = match state.player_name(actor) {
                    Ok(n) => n,
                    Err(e) => {
                        return Err(e);
                    },
                };
                let mut s = String::new();
                s.append(n_actor);
                s.append(" protected longer tuples from being drawn out by shorter ones (pair does not draw triple)");
                Ok(s)
            },
            MessageVariant::TrickDrawPolicySet { policy: TrickDrawPolicy::OnlyDrawTractorOnTractor } => {
                let n_actor = match state.player_name(actor) {
                    Ok(n) => n,
                    Err(e) => {
                        return Err(e);
                    },
                };
                let mut s = String::new();
                s.append(n_actor);
                s.append(" protected tractors from being drawn out by non-tractors");
                Ok(s)
            },
            MessageVariant::ThrowEvaluationPolicySet { policy: ThrowEvaluationPolicy::All } => {
                let n_actor = match state.player_name(actor) {
                    Ok(n) => n,
                    Err(e) => {
                        return Err(e);
                    },
                };
                let mut s = String::new();
                s.append(n_actor);
                s.append(" set throws to be evaluated based on all of the cards");
                Ok(s)
            },
            MessageVariant::ThrowEvaluationPolicySet { policy: ThrowEvaluationPolicy::Highest } => {
                let n_actor = match state.player_name(actor) {
                    Ok(n) => n,
                    Err(e) => {
                        return Err(e);
                    },
                };
                let mut s = String::new();
                s.append(n_actor);
                s.append(" set throws to be evaluated based on the highest card");
                Ok(s)
            },
            MessageVariant::ThrowEvaluationPolicySet { policy: ThrowEvaluationPolicy::TrickUnitLength } => {
                let n_actor = match state.player_name(actor) {
                    Ok(n) => n,
                    Err(e) => {
                        return Err(e);
                    },
                };
                let mut s = String::new();
                s.append(n_actor);
                s.append(" set throws to be evaluated based on the longest component");
                Ok(s)
            },
            MessageVariant::PlayTakebackPolicySet { policy: PlayTakebackPolicy::AllowPlayTakeback } => {
                let n_actor = match state.player_name(actor) {
                    Ok(n) => n,
                    Err(e) => {
                        return Err(e);
                    },
                };
                let mut s = String::new();
                s.append(n_actor);
                s.append(" allowed taking back plays");
                Ok(s)
            },
            MessageVariant::PlayTakebackPolicySet { policy: PlayTakebackPolicy::NoPlayTakeback } => {
                let n_actor = match state.player_name(actor) {
                    Ok(n) => n,
                    Err(e) => {
                        return Err(e);
                    },
                };
                let mut s = String::new();
                s.append(n_actor);
                s.append(" disallowed taking back plays");
                Ok(s)
            },
            _ => Err(GameError::PlayerNotFound),
        }
    }

    #[verifier::rlimit(50)]
    #[verifier::spinoff_prover]
    fn text_7_exec(&self, actor: PlayerID, state: &GameState) -> (r: Result<String, GameError>)
        requires
            in_group_7(*self),
        ensures
            match text_7(*self, actor, state.propagated_spec()) {
                Some(t) => r matches Ok(s) && s@ == t,
                None => r == Err::<String, GameError>(GameError::PlayerNotFound),
            },
    {
        match self {
            MessageVariant::BidTakebackPolicySet { policy: BidTakebackPolicy::AllowBidTakeback } => {
                let n_actor = match state.player_name(actor) {
                    Ok(n) => n,
                    Err(e) => {
                        return Err(e);
                    },
                };
                let mut s = String::new();
                s.append(n_actor);
                s.append(" allowed taking back bids");
                Ok(s)
            },
            MessageVariant::BidTakebackPolicySet { policy: BidTakebackPolicy::NoBidTakeback } => {
                let n_actor = match state.player_name(actor) {
                    Ok(n) => n,
                    Err(e) => {
                        return Err(e);
                    },
                };
                let mut s = String::new();
                s.append(n_actor);
                s.append(" disallowed taking back bids");
                Ok(s)
            },
            MessageVariant::KittyTheftPolicySet { policy: KittyTheftPolicy::AllowKittyTheft } => {
                let n_actor = match state.player_name(actor) {
                    Ok(n) => n,
                    Err(e) => {
                        return Err(e);
                    },
                };
                let mut s = String::new();
                s.append(n_actor);
                s.append(" allowed stealing the bottom cards after the leader");
                Ok(s)
            },
            MessageVariant::KittyTheftPolicySet { policy: KittyTheftPolicy::NoKittyTheft } => {
                let n_actor = match state.player_name(actor) {
                    Ok(n) => n,
                    Err(e) => {
                        return Err(e);
                    },
                };
                let mut s = String::new();
                s.append(n_actor);
                s.append(" disabled stealing the bottom cards after the leader");
                Ok(s)
            },
            MessageVariant::GameShadowingPolicySet { policy: GameShadowingPolicy::AllowMultipleSessions } => {
                let n_actor = match state.player_name(actor) {
                    Ok(n) => n,
                    Err(e) => {
                        return Err(e);
                    },
                };
                let mut s = String::new();
                s.append(n_actor);
                s.append(" allowed players to be shadowed by joining with the same name");
                Ok(s)
            },
            MessageVariant::GameShadowingPolicySet { policy: GameShadowingPolicy::SingleSessionOnly } => {
                let n_actor = match state.player_name(actor) {
                    Ok(n) => n,
                    Err(e) => {
                        return Err(e);
                    },
                };
                let mut s = String::new();
                s.append(n_actor);
                s.append(" prohibited players from being shadowed");
                Ok(s)
            },
            MessageVariant::GameStartPolicySet { policy: GameStartPolicy::AllowAnyPlayer } => {
                let n_actor = match state.player_name(actor) {
                    Ok(n) => n,
                    Err(e) => {
                        return Err(e);
                    },
                };
                let mut s = String::new();
                s.append(n_actor);
                s.append(" allowed any player to start a game");
                Ok(s)
            },
            MessageVariant::GameStartPolicySet { policy: GameStartPolicy::AllowLandlordOnly } => {
                let n_actor = match state.player_name(actor) {
                    Ok(n) => n,
                    Err(e) => {
                        return Err(e);
                    },
                };
                let mut s = String::new();
                s.append(n_actor);
                s.append(" allowed only landlord to start a game");
                Ok(s)
            },
            MessageVariant::RevealedCardFromKitty => {
                let n_actor = match state.player_name(actor) {
                    Ok(n) => n,
                    Err(e) => {
                        return Err(e);
                    },
                };
                let mut s = String::new();
                s.append(n_actor);
                s.append(" revealed a card from the bottom of the deck");
                Ok(s)
            },
            MessageVariant::PickedUpCards => {
                let n_actor = match state.player_name(actor) {
                    Ok(n) => n,
                    Err(e) => {
                        return Err(e);
                    },
                };
                let mut s = String::new();
                s.append(n_actor);
                s.append(" picked up the bottom cards");
                Ok(s)
            },
            _ => Err(GameError::PlayerNotFound),
        }
    }

    #[verifier::rlimit(50)]
    #[verifier::spinoff_prover]
    fn text_8_exec(&self, actor: PlayerID, state: &GameState) -> (r: Result<String, GameError>)
        requires
            in_group_8(*self),
        ensures
            match text_8(*self, actor, state.propagated_spec()) {
                Some(t) => r matches Ok(s) && s@ == t,
                None => r == Err::<String, GameError>(GameError::PlayerNotFound),
            },
    {
        match self {
            MessageVariant::PutDownCards => {
                let n_actor = match state.player_name(actor) {
                    Ok(n) => n,
                    Err(e) => {
                        return Err(e);
                    },
                };
                let mut s = String::new();
                s.append(n_actor);
                s.append(" put down the bottom cards");
                Ok(s)
            },
            MessageVariant::GameFinished { .. } => {
                let mut s = String::new();
                s.append("The game has finished");
                Ok(s)
            },
            MessageVariant::GameEndedEarly => {
                let n_actor = match state.player_name(actor) {
                    Ok(n) => n,
                    Err(e) => {
                        return Err(e);
                    },
                };
                let mut s = String::new();
                s.append(n_actor);
                s.append(" ended the game early");
                Ok(s)
            },
            MessageVariant::BonusLevelEarned => {
                let mut s = String::new();
                s.append("Landlord team earned a bonus level for defending with a smaller team");
                Ok(s)
            },
            MessageVariant::EndOfGameSummary { landlord_won: true, non_landlords_points } => {
                let mut s = String::new();
                s.append("Landlord team won, opposing team only collected ");
                s.append(signed_decimal(*non_landlords_points).as_str());
                s.append(" points");
                Ok(s)
            },
            MessageVariant::EndOfGameSummary { landlord_won: false, non_landlords_points } => {
                let mut s = String::new();
                s.append("Landlord team lost, opposing team collected ");
                s.append(signed_decimal(*non_landlords_points).as_str());
                s.append(" points");
                Ok(s)
            },
            MessageVariant::HideThrowHaltingPlayer { set: true } => {
                let n_actor = match state.player_name(actor) {
                    Ok(n) => n,
                    Err(e) => {
                        return Err(e);
                    },
                };
                let mut s = String::new();
                s.append(n_actor);
                s.append(" hid the player who prevents throws");
                Ok(s)
            },
            MessageVariant::HideThrowHaltingPlayer { set: false } => {
                let n_actor = match state.player_name(actor) {
                    Ok(n) => n,
                    Err(e) => {
                        return Err(e);
                    },
                };
                let mut s = String::new();
                s.append(n_actor);
                s.append(" un-hid the player who prevents throws");
                Ok(s)
            },
            MessageVariant::ResetRequested => {
                let n_actor = match state.player_name(actor) {
                    Ok(n) => n,
                    Err(e) => {
                        return Err(e);
                    },
                };
                let mut s = String::new();
                s.append(n_actor);
                s.append(" requested to reset the game");
                Ok(s)
            },
            MessageVariant::ResetCanceled => {
                let n_actor = match state.player_name(actor) {
                    Ok(n) => n,
                    Err(e) => {
                        return Err(e);
                    },
                };
                let mut s = String::new();
                s.append(n_actor);
                s.append(" canceled the request to reset the game");
                Ok(s)
            },
            _ => Err(GameError::PlayerNotFound),
        }
    }

    /// The message in words, as sent by `actor` in the game `state` (see
    /// `message_text`).
    pub fn to_string(&self, actor: PlayerID, state: &GameState) -> (r: Result<String, GameError>)
        ensures
            match message_text(*self, actor, state.propagated_spec()) {
                Some(t) => r matches Ok(s) && s@ == t,
                None => r == Err::<String, GameError>(GameError::PlayerNotFound),
            },
    {
        if matches!(self, MessageVariant::ResettingGame { .. } | MessageVariant::StartingGame { .. } | MessageVariant::TrickWon { .. } | MessageVariant::RankAdvanced { .. } | MessageVariant::AdvancementBlocked { .. } | MessageVariant::NewLandlordForNextGame { .. } | MessageVariant::PointsInKitty { .. } | MessageVariant::JoinedGame { .. } | MessageVariant::JoinedGameAgain { .. }) {
            return self.text_0_exec(actor, state);
        }
        if matches!(self, MessageVariant::JoinedTeam { .. } | MessageVariant::LeftGame { .. } | MessageVariant::AdvancementPolicySet { .. } | MessageVariant::GameScoringParametersChanged { .. } | MessageVariant::KittySizeSet { .. } | MessageVariant::FriendSelectionPolicySet { .. }) {
            return self.text_1_exec(actor, state);
        }
        if matches!(self, MessageVariant::MultipleJoinPolicySet { .. } | MessageVariant::FirstLandlordSelectionPolicySet { .. } | MessageVariant::BidPolicySet { .. } | MessageVariant::BidReinforcementPolicySet { .. }) {
            return self.text_2_exec(actor, state);
        }
        if matches!(self, MessageVariant::JokerBidPolicySet { .. } | MessageVariant::ShouldRevealKittyAtEndOfGameSet { .. } | MessageVariant::NumDecksSet { .. } | MessageVariant::NumFriendsSet { .. } | MessageVariant::GameModeSet { .. }) {
            return self.text_3_exec(actor, state);
        }
        if matches!(self, MessageVariant::TookBackBid { .. } | MessageVariant::TookBackPlay { .. } | MessageVariant::PlayedCards { .. } | MessageVariant::EndOfGameKittyReveal { .. } | MessageVariant::ThrowFailed { .. } | MessageVariant::SetDefendingPointVisibility { .. } | MessageVariant::SetCardVisibility { .. }) {
            return self.text_4_exec(actor, state);
        }
        if matches!(self, MessageVariant::SetLandlord { .. } | MessageVariant::SetLandlordEmoji { .. } | MessageVariant::SetRank { .. } | MessageVariant::SetMetaRank { .. } | MessageVariant::SetMaxRank { .. } | MessageVariant::MadeBid { .. } | MessageVariant::KittyPenaltySet { .. } | MessageVariant::ThrowPenaltySet { .. }) {
            return self.text_5_exec(actor, state);
        }
        if matches!(self, MessageVariant::KittyBidPolicySet { .. } | MessageVariant::TrickDrawPolicySet { .. } | MessageVariant::ThrowEvaluationPolicySet { .. } | MessageVariant::PlayTakebackPolicySet { .. }) {
            return self.text_6_exec(actor, state);
        }
        if matches!(self, MessageVariant::BidTakebackPolicySet { .. } | MessageVariant::KittyTheftPolicySet { .. } | MessageVariant::GameShadowingPolicySet { .. } | MessageVariant::GameStartPolicySet { .. } | MessageVariant::RevealedCardFromKitty { .. } | MessageVariant::PickedUpCards { .. }) {
            return self.text_7_exec(actor, state);
        }
        if matches!(self, MessageVariant::PutDownCards { .. } | MessageVariant::GameFinished { .. } | MessageVariant::GameEndedEarly { .. } | MessageVariant::BonusLevelEarned { .. } | MessageVariant::EndOfGameSummary { .. } | MessageVariant::HideThrowHaltingPlayer { .. } | MessageVariant::ResetRequested { .. } | MessageVariant::ResetCanceled { .. }) {
            return self.text_8_exec(actor, state);
        }
        Err(GameError::PlayerNotFound)
    }
}


/// The name of a tuple of `n` cards: single, pair, triple, quadruple,
/// quintuple, else `n`-tuple.
pub open spec fn tuple_text(n: nat) -> Seq<char> {
    if n == 1 {
        "single"@
    } else if n == 2 {
        "pair"@
    } else if n == 3 {
        "triple"@
    } else if n == 4 {
        "quadruple"@
    } else if n == 5 {
        "quintuple"@
    } else {
        decimal_text(n) + "-tuple"@
    }
}

/// The names of the tuples, separated by commas.
pub open spec fn joined_tuples(t: Seq<usize>) -> Seq<char>
    decreases t.len(),
{
    if t.len() == 0 {
        Seq::empty()
    } else if t.len() == 1 {
        tuple_text(t[0] as nat)
    } else {
        joined_tuples(t.drop_last()) + ", "@ + tuple_text(t.last() as nat)
    }
}

/// The description of a unit of the given tuple sizes: a single tuple by
/// its name; tuples all of one size as a tractor (of that size, when not
/// pairs, and with its length when longer than two); otherwise the tuples
/// after the first, and then the first.
pub open spec fn unit_text(t: Seq<usize>) -> Seq<char> {
    let len = t.len();
    if len == 1 {
        tuple_text(t[0] as nat)
    } else if forall|i: int| 0 <= i < len ==> #[trigger] t[i] == t[0] {
        if len == 2 {
            if t[0] == 2 {
                "tractor"@
            } else {
                "tractor of "@ + tuple_text(t[0] as nat) + "s"@
            }
        } else {
            decimal_text(len) + "-tractor of "@ + tuple_text(t[0] as nat) + "s"@
        }
    } else if len == 2 {
        "an adjacent "@ + tuple_text(t[0] as nat) + " and a "@ + tuple_text(t[1] as nat)
    } else {
        "an adjacent "@ + joined_tuples(t.subrange(1, len as int)) + ", and a "@ + tuple_text(t[0] as nat)
    }
}

/// Whether `a` comes before `b` in dictionary order, by character code.
pub open spec fn lex_less(a: Seq<char>, b: Seq<char>) -> bool {
    exists|i: int| lex_split(a, b, i)
}

/// `a` and `b` agree before `i`, and at `i` the first ends or has the
/// smaller character.
pub open spec fn lex_split(a: Seq<char>, b: Seq<char>, i: int) -> bool {
    &&& 0 <= i <= a.len()
    &&& i < b.len()
    &&& forall|k: int| 0 <= k < i ==> a[k] == b[k]
    &&& (i == a.len() || (a[i] as int) < (b[i] as int))
}

proof fn lemma_lex_split_unique(a: Seq<char>, b: Seq<char>, i: int, j: int)
    requires
        lex_split(a, b, i),
        lex_split(a, b, j),
    ensures
        i == j,
{
    if i < j {
        assert(a[i] == b[i]);
    } else if j < i {
        assert(a[j] == b[j]);
    }
}

/// Dictionary order is a strict total order.
pub proof fn lemma_lex_order(a: Seq<char>, b: Seq<char>, c: Seq<char>)
    ensures
        !lex_less(a, a),
        lex_less(a, b) ==> !lex_less(b, a),
        lex_less(a, b) && lex_less(b, c) ==> lex_less(a, c),
        a != b ==> lex_less(a, b) || lex_less(b, a),
{
    if lex_less(a, a) {
        let i = choose|i: int| lex_split(a, a, i);
    }
    if lex_less(a, b) && lex_less(b, a) {
        let i = choose|i: int| lex_split(a, b, i);
        let j = choose|j: int| lex_split(b, a, j);
        if i < j {
            assert(b[i] == a[i]);
        } else if j < i {
            assert(a[j] == b[j]);
        }
    }
    if lex_less(a, b) && lex_less(b, c) {
        let i = choose|i: int| lex_split(a, b, i);
        let j = choose|j: int| lex_split(b, c, j);
        let k = if i < j { i } else { j };
        assert(lex_split(a, c, k));
    }
    if a != b && !lex_less(a, b) && !lex_less(b, a) {
        let n = if a.len() < b.len() { a.len() as int } else { b.len() as int };
        if forall|k: int| 0 <= k < n ==> a[k] == b[k] {
            if a.len() < b.len() {
                assert(lex_split(a, b, n));
            } else if b.len() < a.len() {
                assert(lex_split(b, a, n));
            } else {
                assert(a =~= b);
            }
        } else {
            let w = choose|w: int| 0 <= w < n && a[w] != b[w];
            lemma_first_difference(a, b, w);
            let k = choose|k: int| 0 <= k <= w && a[k] != b[k] && forall|q: int| 0 <= q < k ==> a[q] == b[q];
            if (a[k] as int) < (b[k] as int) {
                assert(lex_split(a, b, k));
            } else {
                assert((b[k] as int) < (a[k] as int));
                assert(lex_split(b, a, k));
            }
        }
    }
}

proof fn lemma_first_difference(a: Seq<char>, b: Seq<char>, w: int)
    requires
        0 <= w < a.len(),
        w < b.len(),
        a[w] != b[w],
    ensures
        exists|k: int| 0 <= k <= w && a[k] != b[k] && forall|q: int| 0 <= q < k ==> a[q] == b[q],
    decreases w,
{
    if exists|q: int| 0 <= q < w && a[q] != b[q] {
        let q = choose|q: int| 0 <= q < w && a[q] != b[q];
        lemma_first_difference(a, b, q);
    } else {
        assert(forall|q: int| 0 <= q < w ==> a[q] == b[q]);
    }
}

/// How many times `x` occurs in `s`.
pub open spec fn count_in(s: Seq<Seq<char>>, x: Seq<char>) -> nat
    decreases s.len(),
{
    if s.len() == 0 {
        0
    } else {
        count_in(s.drop_last(), x) + (if s.last() == x { 1nat } else { 0nat })
    }
}

/// The entries are the different texts of `descs`, in dictionary order,
/// each with the number of times it occurs.
pub open spec fn tallies(descs: Seq<Seq<char>>, es: Seq<(Seq<char>, nat)>) -> bool {
    &&& forall|i: int, j: int| 0 <= i < j < es.len() ==> lex_less(#[trigger] es[i].0, #[trigger] es[j].0)
    &&& forall|i: int| 0 <= i < es.len() ==> descs.contains(#[trigger] es[i].0) && es[i].1 == count_in(descs, es[i].0)
    &&& forall|d: Seq<char>| descs.contains(d) ==> exists|i: int| 0 <= i < es.len() && #[trigger] es[i].0 == d
}

/// One entry of a tally: the count, then the text.
pub open spec fn entry_text(e: (Seq<char>, nat)) -> Seq<char> {
    decimal_text(e.1) + " "@ + e.0
}

/// The entries of a tally, separated by commas.
pub open spec fn entries_text(es: Seq<(Seq<char>, nat)>) -> Seq<char>
    decreases es.len(),
{
    if es.len() == 0 {
        Seq::empty()
    } else if es.len() == 1 {
        entry_text(es[0])
    } else {
        entries_text(es.drop_last()) + ", "@ + entry_text(es.last())
    }
}

/// A tally in words: a single entry as "a" text when it occurs once.
pub open spec fn tally_text(es: Seq<(Seq<char>, nat)>) -> Seq<char> {
    if es.len() == 1 && es[0].1 == 1 {
        "a "@ + es[0].0
    } else {
        entries_text(es)
    }
}

/// The name of a tuple of `len` cards (see `tuple_text`).
fn tuple_description_of(len: usize) -> (r: String)
    ensures
        r@ == tuple_text(len as nat),
{
    if len == 1 {
        String::from_str("single")
    } else if len == 2 {
        String::from_str("pair")
    } else if len == 3 {
        String::from_str("triple")
    } else if len == 4 {
        String::from_str("quadruple")
    } else if len == 5 {
        String::from_str("quintuple")
    } else {
        let mut s = decimal(len);
        s.append("-tuple");
        s
    }
}

/// Whether `a` comes before `b` in dictionary order.
fn text_less(a: &str, b: &str) -> (r: bool)
    ensures
        r == lex_less(a@, b@),
{
    let la = a.unicode_len();
    let lb = b.unicode_len();
    let mut i: usize = 0;
    while i < la && i < lb
        invariant
            la == a@.len(),
            lb == b@.len(),
            i <= la,
            i <= lb,
            forall|k: int| 0 <= k < i ==> a@[k] == b@[k],
        decreases la - i,
    {
        let ca = a.get_char(i);
        let cb = b.get_char(i);
        if ca != cb {
            proof {
                if (ca as int) < (cb as int) {
                    assert(lex_split(a@, b@, i as int));
                } else {
                    if lex_less(a@, b@) {
                        let j = choose|j: int| lex_split(a@, b@, j);
                        if j < i {
                            assert(a@[j] == b@[j]);
                        }
                    }
                }
            }
            return (ca as u32) < (cb as u32);
        }
        i += 1;
    }
    proof {
        if la < lb {
            assert(lex_split(a@, b@, la as int));
        } else if lex_less(a@, b@) {
            let j = choose|j: int| lex_split(a@, b@, j);
        }
    }
    la < lb
}

impl UnitLike {
    /// The name of a tuple of `len` cards (see `tuple_text`).
    pub fn tuple_description(len: usize) -> (r: String)
        ensures
            r@ == tuple_text(len as nat),
    {
        tuple_description_of(len)
    }

    /// The description of the unit (see `unit_text`).
    pub fn description(&self) -> (r: String)
        requires
            self.adjacent_tuples@.len() > 0,
        ensures
            r@ == unit_text(self.adjacent_tuples@),
    {
        let t = &self.adjacent_tuples;
        let length = t.len();
        if length == 1 {
            return tuple_description_of(t[0]);
        }
        if self.rectangular() {
            let count = t[0];
            if length == 2 {
                if count == 2 {
                    String::from_str("tractor")
                } else {
                    let mut s = String::from_str("tractor of ");
                    s.append(tuple_description_of(count).as_str());
                    s.append("s");
                    s
                }
            } else {
                let mut s = decimal(length);
                s.append("-tractor of ");
                s.append(tuple_description_of(count).as_str());
                s.append("s");
                s
            }
        } else if length == 2 {
            let mut s = String::from_str("an adjacent ");
            s.append(tuple_description_of(t[0]).as_str());
            s.append(" and a ");
            s.append(tuple_description_of(t[1]).as_str());
            s
        } else {
            let mut s = String::from_str("an adjacent ");
            let mut joined = String::new();
            let mut i: usize = 1;
            while i < length
                invariant
                    1 <= i <= length,
                    length == t@.len(),
                    joined@ == joined_tuples(t@.subrange(1, i as int)),
                decreases length - i,
            {
                proof {
                    assert(t@.subrange(1, i + 1).drop_last() =~= t@.subrange(1, i as int));
                }
                if i > 1 {
                    joined.append(", ");
                }
                joined.append(tuple_description_of(t[i]).as_str());
                i += 1;
            }
            s.append(joined.as_str());
            s.append(", and a ");
            s.append(tuple_description_of(t[0]).as_str());
            s
        }
    }

    /// How many units of each description there are, in words: the
    /// descriptions in dictionary order, each after its count, separated
    /// by commas; a lone unit as "a" description (see `tally_text`).
    pub fn multi_description(units: &[UnitLike]) -> (r: String)
        requires
            forall|i: int| 0 <= i < units@.len() ==> (#[trigger] units@[i]).adjacent_tuples@.len() > 0,
        ensures
            exists|es: Seq<(Seq<char>, nat)>| {
                &&& tallies(Seq::new(units@.len(), |i: int| unit_text(units@[i].adjacent_tuples@)), es)
                &&& r@ == tally_text(es)
            },
    {
        let ghost descs = Seq::new(units@.len(), |i: int| unit_text(units@[i].adjacent_tuples@));
        let mut texts: Vec<String> = Vec::new();
        let mut counts: Vec<usize> = Vec::new();
        let mut u: usize = 0;
        while u < units.len()
            invariant
                u <= units@.len(),
                texts@.len() == counts@.len(),
                descs == Seq::new(units@.len(), |i: int| unit_text(units@[i].adjacent_tuples@)),
                forall|i: int| 0 <= i < units@.len() ==> (#[trigger] units@[i]).adjacent_tuples@.len() > 0,
                tallies(descs.subrange(0, u as int), Seq::new(texts@.len(), |i: int| (texts@[i]@, counts@[i] as nat))),
                forall|i: int| 0 <= i < counts@.len() ==> #[trigger] counts@[i] <= u,
            decreases units.len() - u,
        {
            let d = units[u].description();
            let ghost pre = descs.subrange(0, u as int);
            let ghost next = descs.subrange(0, u + 1);
            proof {
                assert(next.drop_last() =~= pre);
                assert(next.last() == d@);
            }
            let mut k: usize = 0;
            let mut found = false;
            while k < texts.len()
                invariant_except_break
                    !found,
                invariant
                    k <= texts@.len(),
                    texts@.len() == counts@.len(),
                    forall|q: int| 0 <= q < k ==> #[trigger] lex_less(texts@[q]@, d@),
                ensures
                    found ==> k < texts@.len() && texts@[k as int]@ == d@,
                    !found ==> k <= texts@.len() && (k < texts@.len() ==> lex_less(d@, texts@[k as int]@)),
                    forall|q: int| 0 <= q < k ==> #[trigger] lex_less(texts@[q]@, d@),
                decreases texts.len() - k,
            {
                if texts[k] == d {
                    found = true;
                    break;
                }
                if text_less(d.as_str(), texts[k].as_str()) {
                    break;
                }
                proof {
                    lemma_lex_order(texts@[k as int]@, d@, d@);
                }
                k += 1;
            }
            let ghost es0 = Seq::new(texts@.len(), |i: int| (texts@[i]@, counts@[i] as nat));
            if found {
                let c = counts[k];
                counts.set(k, c + 1);
                proof {
                    let es1 = Seq::new(texts@.len(), |i: int| (texts@[i]@, counts@[i] as nat));
                    assert forall|i: int| 0 <= i < es1.len() implies next.contains(#[trigger] es1[i].0) && es1[i].1 == count_in(next, es1[i].0) by {
                        assert(pre.contains(es0[i].0));
                        let w = choose|w: int| 0 <= w < pre.len() && pre[w] == es0[i].0;
                        assert(next[w] == es0[i].0);
                        if i != k {
                            assert(es0[i].0 != d@) by {
                                lemma_lex_order(es0[i].0, d@, d@);
                                if i < k {
                                } else {
                                    assert(lex_less(es0[k as int].0, es0[i].0));
                                }
                            }
                        }
                    }
                    assert forall|x: Seq<char>| next.contains(x) implies exists|i: int| 0 <= i < es1.len() && #[trigger] es1[i].0 == x by {
                        let w = choose|w: int| 0 <= w < next.len() && next[w] == x;
                        if w < pre.len() {
                            assert(pre[w] == x);
                            assert(pre.contains(x));
                            let i = choose|i: int| 0 <= i < es0.len() && #[trigger] es0[i].0 == x;
                            assert(es1[i].0 == x);
                        } else {
                            assert(es1[k as int].0 == x);
                        }
                    }
                    assert forall|i: int, j: int| 0 <= i < j < es1.len() implies lex_less(#[trigger] es1[i].0, #[trigger] es1[j].0) by {
                        assert(es1[i].0 == es0[i].0 && es1[j].0 == es0[j].0);
                    }
                }
            } else {
                texts.insert(k, d);
                counts.insert(k, 1);
                proof {
                    let es1 = Seq::new(texts@.len(), |i: int| (texts@[i]@, counts@[i] as nat));
                    assert(es1 =~= es0.insert(k as int, (d@, 1nat)));
                    assert(!pre.contains(d@)) by {
                        if pre.contains(d@) {
                            let i = choose|i: int| 0 <= i < es0.len() && #[trigger] es0[i].0 == d@;
                            if i < k {
                                lemma_lex_order(d@, d@, d@);
                            } else {
                                lemma_lex_order(d@, es0[k as int].0, es0[i].0);
                                lemma_lex_order(d@, d@, d@);
                            }
                        }
                    }
                    lemma_count_absent(pre, d@);
                    assert forall|i: int| 0 <= i < es1.len() implies next.contains(#[trigger] es1[i].0) && es1[i].1 == count_in(next, es1[i].0) by {
                        if i == k {
                            assert(next[u as int] == d@);
                        } else {
                            let o = if i < k { i } else { i - 1 };
                            assert(es1[i] == es0[o]);
                            assert(pre.contains(es0[o].0));
                            let w = choose|w: int| 0 <= w < pre.len() && pre[w] == es0[o].0;
                            assert(next[w] == es0[o].0);
                            assert(es0[o].0 != d@);
                        }
                    }
                    assert forall|x: Seq<char>| next.contains(x) implies exists|i: int| 0 <= i < es1.len() && #[trigger] es1[i].0 == x by {
                        let w = choose|w: int| 0 <= w < next.len() && next[w] == x;
                        if w < pre.len() {
                            assert(pre[w] == x);
                            assert(pre.contains(x));
                            let i = choose|i: int| 0 <= i < es0.len() && #[trigger] es0[i].0 == x;
                            if i < k {
                                assert(es1[i].0 == x);
                            } else {
                                assert(es1[i + 1].0 == x);
                            }
                        } else {
                            assert(es1[k as int].0 == x);
                        }
                    }
                    assert forall|i: int, j: int| 0 <= i < j < es1.len() implies lex_less(#[trigger] es1[i].0, #[trigger] es1[j].0) by {
                        if j < k {
                        } else if j == k {
                        } else if i < k {
                            assert(es1[j] == es0[j - 1]);
                            if k < es0.len() {
                                lemma_lex_order(es0[i].0, d@, es0[k as int].0);
                                if j - 1 > k {
                                    lemma_lex_order(es0[i].0, es0[k as int].0, es0[j - 1].0);
                                }
                            }
                        } else if i == k {
                            assert(es1[j] == es0[j - 1]);
                            if j - 1 > k {
                                lemma_lex_order(d@, es0[k as int].0, es0[j - 1].0);
                            }
                        } else {
                            assert(es1[i] == es0[i - 1]);
                            assert(es1[j] == es0[j - 1]);
                        }
                    }
                }
            }
            u += 1;
        }
        let ghost es = Seq::new(texts@.len(), |i: int| (texts@[i]@, counts@[i] as nat));
        proof {
            assert(descs.subrange(0, units@.len() as int) =~= descs);
        }
        let n = texts.len();
        if n == 1 && counts[0] == 1 {
            let mut s = String::from_str("a ");
            s.append(texts[0].as_str());
            proof {
                assert(tallies(descs, es) && s@ == tally_text(es));
            }
            return s;
        }
        let mut s = String::new();
        let mut i: usize = 0;
        while i < n
            invariant
                i <= n == texts@.len() == counts@.len(),
                es == Seq::new(texts@.len(), |i: int| (texts@[i]@, counts@[i] as nat)),
                s@ == entries_text(es.subrange(0, i as int)),
            decreases n - i,
        {
            proof {
                assert(es.subrange(0, i + 1).drop_last() =~= es.subrange(0, i as int));
            }
            if i > 0 {
                s.append(", ");
            }
            s.append(decimal(counts[i]).as_str());
            s.append(" ");
            s.append(texts[i].as_str());
            i += 1;
        }
        proof {
            assert(es.subrange(0, n as int) =~= es);
            assert(tallies(descs, es) && s@ == tally_text(es));
        }
        s
    }
}

proof fn lemma_count_absent(s: Seq<Seq<char>>, x: Seq<char>)
    requires
        !s.contains(x),
    ensures
        count_in(s, x) == 0,
    decreases s.len(),
{
    if s.len() > 0 {
        assert(!s.drop_last().contains(x)) by {
            if s.drop_last().contains(x) {
                let w = choose|w: int| 0 <= w < s.drop_last().len() && s.drop_last()[w] == x;
                assert(s[w] == x);
            }
        }
        lemma_count_absent(s.drop_last(), x);
    }
}

} // verus!
