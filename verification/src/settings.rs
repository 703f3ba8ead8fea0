//! The settings of a room that carry over from game to game: who plays, who
//! watches, who leads, and the rules chosen for the next game.

use vstd::prelude::*;

use crate::bidding::{BidPolicy, BidReinforcementPolicy, BidTakebackPolicy, JokerBidPolicy};
use crate::deck::Deck;
use crate::message::{same_messages, MessageVariant};
use crate::player::Player;
use crate::scoring::{window_bound, BonusLevelPolicy, GameScoringParameters, ScoringError};
use crate::trick::{ThrowEvaluationPolicy, TrickDrawPolicy};
use crate::types::{full_deck, Card, Number, PlayerID, Rank, FULL_DECK};

verus! {

/// A friend the landlord calls for by naming a card.
#[derive(Debug, Copy, Clone, PartialEq, Eq, Structural)]
pub struct Friend {
    pub card: Card,
    pub skip: usize,
    pub initial_skip: usize,
    pub player_id: Option<PlayerID>,
}

#[derive(Debug, Copy, Clone, PartialEq, Eq, Structural)]
pub struct FriendSelection {
    pub card: Card,
    pub initial_skip: usize,
}

#[derive(Debug)]
pub enum GameMode {
    Tractor,
    FindingFriends { num_friends: usize, friends: Vec<Friend> },
}

#[derive(Debug, Copy, Clone, PartialEq, Eq, Structural)]
pub enum GameModeSettings {
    Tractor,
    FindingFriends { num_friends: Option<usize> },
}

impl GameModeSettings {
    /// The name of the mode.
    pub fn variant(self) -> (r: &'static str)
        ensures
            self is Tractor ==> r@ == "Tractor"@,
            self is FindingFriends ==> r@ == "FindingFriends"@,
    {
        match self {
            GameModeSettings::Tractor => "Tractor",
            GameModeSettings::FindingFriends { .. } => "FindingFriends",
        }
    }
}

impl Default for GameModeSettings {
    fn default() -> (r: Self)
        ensures
            r == GameModeSettings::Tractor,
    {
        GameModeSettings::Tractor
    }
}

#[derive(Debug, Copy, Clone, PartialEq, Eq, Structural)]
pub enum ThrowPenalty {
    /// No penalty for a failed throw.
    NoPenalty,
    TenPointsPerAttempt,
}

impl Default for ThrowPenalty {
    fn default() -> (r: Self)
        ensures
            r == ThrowPenalty::NoPenalty,
    {
        ThrowPenalty::NoPenalty
    }
}

#[derive(Debug, Copy, Clone, PartialEq, Eq, Structural)]
pub enum KittyPenalty {
    Times,
    Power,
}

impl Default for KittyPenalty {
    fn default() -> (r: Self)
        ensures
            r == KittyPenalty::Times,
    {
        KittyPenalty::Times
    }
}

#[derive(Debug, Copy, Clone, PartialEq, Eq, Structural)]
pub enum AdvancementPolicy {
    Unrestricted,
    FullyUnrestricted,
    DefendPoints,
}

impl Default for AdvancementPolicy {
    fn default() -> (r: Self)
        ensures
            r == AdvancementPolicy::Unrestricted,
    {
        AdvancementPolicy::Unrestricted
    }
}

#[derive(Debug, Copy, Clone, PartialEq, Eq, Structural)]
pub enum FriendSelectionPolicy {
    Unrestricted,
    HighestCardNotAllowed,
}

impl Default for FriendSelectionPolicy {
    fn default() -> (r: Self)
        ensures
            r == FriendSelectionPolicy::Unrestricted,
    {
        FriendSelectionPolicy::Unrestricted
    }
}

#[derive(Debug, Copy, Clone, PartialEq, Eq, Structural)]
pub enum FirstLandlordSelectionPolicy {
    ByWinningBid,
    ByFirstBid,
}

impl Default for FirstLandlordSelectionPolicy {
    fn default() -> (r: Self)
        ensures
            r == FirstLandlordSelectionPolicy::ByWinningBid,
    {
        FirstLandlordSelectionPolicy::ByWinningBid
    }
}

#[derive(Debug, Copy, Clone, PartialEq, Eq, Structural)]
pub enum KittyBidPolicy {
    FirstCard,
    FirstCardOfLevelOrHighest,
}

impl Default for KittyBidPolicy {
    fn default() -> (r: Self)
        ensures
            r == KittyBidPolicy::FirstCard,
    {
        KittyBidPolicy::FirstCard
    }
}

#[derive(Debug, Copy, Clone, PartialEq, Eq, Structural)]
pub enum PlayTakebackPolicy {
    AllowPlayTakeback,
    NoPlayTakeback,
}

impl Default for PlayTakebackPolicy {
    fn default() -> (r: Self)
        ensures
            r == PlayTakebackPolicy::AllowPlayTakeback,
    {
        PlayTakebackPolicy::AllowPlayTakeback
    }
}

#[derive(Debug, Copy, Clone, PartialEq, Eq, Structural)]
pub enum KittyTheftPolicy {
    AllowKittyTheft,
    NoKittyTheft,
}

impl Default for KittyTheftPolicy {
    fn default() -> (r: Self)
        ensures
            r == KittyTheftPolicy::NoKittyTheft,
    {
        KittyTheftPolicy::NoKittyTheft
    }
}

/// Whether a player already on the landlord's team can be called as a
/// friend a second time.
#[derive(Debug, Copy, Clone, PartialEq, Eq, Structural)]
pub enum MultipleJoinPolicy {
    Unrestricted,
    NoDoubleJoin,
}

impl Default for MultipleJoinPolicy {
    fn default() -> (r: Self)
        ensures
            r == MultipleJoinPolicy::Unrestricted,
    {
        MultipleJoinPolicy::Unrestricted
    }
}

#[derive(Debug, Copy, Clone, PartialEq, Eq, Structural)]
pub enum GameShadowingPolicy {
    AllowMultipleSessions,
    SingleSessionOnly,
}

impl Default for GameShadowingPolicy {
    fn default() -> (r: Self)
        ensures
            r == GameShadowingPolicy::AllowMultipleSessions,
    {
        GameShadowingPolicy::AllowMultipleSessions
    }
}

#[derive(Debug, Copy, Clone, PartialEq, Eq, Structural)]
pub enum GameStartPolicy {
    AllowAnyPlayer,
    AllowLandlordOnly,
}

impl Default for GameStartPolicy {
    fn default() -> (r: Self)
        ensures
            r == GameStartPolicy::AllowAnyPlayer,
    {
        GameStartPolicy::AllowAnyPlayer
    }
}

/// Why a change to the settings was refused.
#[derive(Debug, Copy, Clone, PartialEq, Eq, Structural)]
pub enum SettingsError {
    NameTaken,
    WrongNumberOfPlayers,
    PlayerNotFound,
    LinkTooLong,
    NotHttps,
    InvalidUrl,
    NoDecks,
    NoPlayers,
    KittyTooLarge,
    KittyNotMultipleOfRemainder,
    Scoring { source: ScoringError },
}

/// Whether some player of a list has the given name.
pub open spec fn name_in(ps: Seq<Player>, name: Seq<char>) -> bool {
    exists|i: int| 0 <= i < ps.len() && (#[trigger] ps[i]).name@ == name
}

/// Why a chat link is refused, if it is: at most 127 bytes, and an https
/// URL.
pub open spec fn chat_link_error(chat_link: Option<String>) -> Option<SettingsError> {
    match chat_link {
        Some(l) => if (vstd::utf8::encode_utf8(l@).len() as usize) >= 128 {
            Some(SettingsError::LinkTooLong)
        } else {
            match url_scheme(l@) {
                None => Some(SettingsError::InvalidUrl),
                Some(s) => if s == "https"@ { None } else { Some(SettingsError::NotHttps) },
            }
        },
        None => None,
    }
}

/// Whether some player of a list has the given id.
pub open spec fn id_in(ps: Seq<Player>, id: PlayerID) -> bool {
    exists|i: int| 0 <= i < ps.len() && (#[trigger] ps[i]).id == id
}

/// The players of a list without those with the given id.
pub open spec fn without_id(ps: Seq<Player>, id: PlayerID) -> Seq<Player>
    decreases ps.len(),
{
    if ps.len() == 0 {
        Seq::empty()
    } else {
        without_id(ps.drop_last(), id) + (if ps.last().id == id { Seq::empty() } else { seq![ps.last()] })
    }
}

/// The first player of a list with the given id.
pub open spec fn first_with_id(ps: Seq<Player>, id: PlayerID) -> Player
    decreases ps.len(),
{
    if ps.len() == 0 || ps[0].id == id {
        ps[0]
    } else {
        first_with_id(ps.drop_first(), id)
    }
}

/// The number of different ids in a list.
pub open spec fn distinct_ids(ids: Seq<PlayerID>) -> nat {
    ids.to_set().len()
}

/// Settings and players that carry over from one game to the next.
#[derive(Debug)]
pub struct PropagatedState {
    pub(crate) game_mode: GameModeSettings,
    pub(crate) hide_landlord_points: bool,
    pub(crate) kitty_size: Option<usize>,
    pub(crate) friend_selection_policy: FriendSelectionPolicy,
    pub(crate) num_decks: Option<usize>,
    max_player_id: usize,
    pub(crate) players: Vec<Player>,
    pub(crate) observers: Vec<Player>,
    pub(crate) landlord: Option<PlayerID>,
    pub(crate) landlord_emoji: Option<String>,
    pub(crate) chat_link: Option<String>,
    pub(crate) advancement_policy: AdvancementPolicy,
    pub(crate) kitty_penalty: KittyPenalty,
    pub(crate) throw_penalty: ThrowPenalty,
    pub(crate) hide_played_cards: bool,
    pub(crate) num_games_finished: usize,
    pub(crate) kitty_bid_policy: KittyBidPolicy,
    pub(crate) kitty_theft_policy: KittyTheftPolicy,
    pub(crate) trick_draw_policy: TrickDrawPolicy,
    pub(crate) throw_evaluation_policy: ThrowEvaluationPolicy,
    pub(crate) first_landlord_selection_policy: FirstLandlordSelectionPolicy,
    pub(crate) bid_policy: BidPolicy,
    pub(crate) bid_reinforcement_policy: BidReinforcementPolicy,
    pub(crate) joker_bid_policy: JokerBidPolicy,
    pub(crate) should_reveal_kitty_at_end_of_game: bool,
    pub(crate) play_takeback_policy: PlayTakebackPolicy,
    pub(crate) bid_takeback_policy: BidTakebackPolicy,
    pub(crate) game_shadowing_policy: GameShadowingPolicy,
    pub(crate) game_start_policy: GameStartPolicy,
    pub(crate) game_scoring_parameters: GameScoringParameters,
    pub(crate) bonus_level_policy: BonusLevelPolicy,
    pub(crate) multiple_join_policy: MultipleJoinPolicy,
    pub(crate) hide_throw_halting_player: bool,
    pub(crate) max_rank: Rank,
}

impl Default for PropagatedState {
    fn default() -> (r: Self)
        ensures
            r.players_spec().len() == 0,
            r.observers_spec().len() == 0,
            r.landlord_spec() is None,
            r.num_decks_setting() is None,
            r.kitty_size_spec() is None,
            r.next_id() == 0,
            r.game_mode_spec() == GameModeSettings::Tractor,
    {
        PropagatedState {
            game_mode: GameModeSettings::default(),
            hide_landlord_points: false,
            kitty_size: None,
            friend_selection_policy: FriendSelectionPolicy::default(),
            num_decks: None,
            max_player_id: 0,
            players: Vec::new(),
            observers: Vec::new(),
            landlord: None,
            landlord_emoji: None,
            chat_link: None,
            advancement_policy: AdvancementPolicy::default(),
            kitty_penalty: KittyPenalty::default(),
            throw_penalty: ThrowPenalty::default(),
            hide_played_cards: false,
            num_games_finished: 0,
            kitty_bid_policy: KittyBidPolicy::default(),
            kitty_theft_policy: KittyTheftPolicy::default(),
            trick_draw_policy: TrickDrawPolicy::default(),
            throw_evaluation_policy: ThrowEvaluationPolicy::default(),
            first_landlord_selection_policy: FirstLandlordSelectionPolicy::default(),
            bid_policy: BidPolicy::default(),
            bid_reinforcement_policy: BidReinforcementPolicy::default(),
            joker_bid_policy: JokerBidPolicy::default(),
            should_reveal_kitty_at_end_of_game: false,
            play_takeback_policy: PlayTakebackPolicy::default(),
            bid_takeback_policy: BidTakebackPolicy::default(),
            game_shadowing_policy: GameShadowingPolicy::default(),
            game_start_policy: GameStartPolicy::default(),
            multiple_join_policy: MultipleJoinPolicy::default(),
            hide_throw_halting_player: false,
            max_rank: Rank::NoTrump,
            game_scoring_parameters: GameScoringParameters::default(),
            bonus_level_policy: BonusLevelPolicy::default(),
        }
    }
}

impl PropagatedState {
    pub closed spec fn players_spec(self) -> Seq<Player> {
        self.players@
    }

    pub closed spec fn observers_spec(self) -> Seq<Player> {
        self.observers@
    }

    pub closed spec fn landlord_spec(self) -> Option<PlayerID> {
        self.landlord
    }

    pub closed spec fn num_decks_setting(self) -> Option<usize> {
        self.num_decks
    }

    pub closed spec fn kitty_size_spec(self) -> Option<usize> {
        self.kitty_size
    }

    /// The id the next player or observer to join gets.
    pub closed spec fn next_id(self) -> usize {
        self.max_player_id
    }

    pub closed spec fn game_mode_spec(self) -> GameModeSettings {
        self.game_mode
    }

    pub closed spec fn trick_draw_policy_spec(self) -> TrickDrawPolicy {
        self.trick_draw_policy
    }

    pub closed spec fn landlord_emoji_spec(self) -> Option<String> {
        self.landlord_emoji
    }

    pub closed spec fn chat_link_spec(self) -> Option<String> {
        self.chat_link
    }

    /// Everything but the players, the observers and the landlord.
    pub open spec fn same_rules(self, other: PropagatedState) -> bool {
        &&& self.game_mode_spec() == other.game_mode_spec()
        &&& self.hides_landlord_points() == other.hides_landlord_points()
        &&& self.kitty_size_spec() == other.kitty_size_spec()
        &&& self.friend_selection_policy_setting() == other.friend_selection_policy_setting()
        &&& self.num_decks_setting() == other.num_decks_setting()
        &&& self.landlord_emoji_spec() == other.landlord_emoji_spec()
        &&& self.chat_link_spec() == other.chat_link_spec()
        &&& self.advancement_policy_setting() == other.advancement_policy_setting()
        &&& self.kitty_penalty_setting() == other.kitty_penalty_setting()
        &&& self.throw_penalty_setting() == other.throw_penalty_setting()
        &&& self.hides_played_cards() == other.hides_played_cards()
        &&& self.games_finished() == other.games_finished()
        &&& self.kitty_bid_policy_setting() == other.kitty_bid_policy_setting()
        &&& self.kitty_theft_policy_setting() == other.kitty_theft_policy_setting()
        &&& self.trick_draw_policy_spec() == other.trick_draw_policy_spec()
        &&& self.throw_evaluation_policy_setting() == other.throw_evaluation_policy_setting()
        &&& self.first_landlord_selection_policy_setting() == other.first_landlord_selection_policy_setting()
        &&& self.bid_policy_setting() == other.bid_policy_setting()
        &&& self.bid_reinforcement_policy_setting() == other.bid_reinforcement_policy_setting()
        &&& self.joker_bid_policy_setting() == other.joker_bid_policy_setting()
        &&& self.reveals_kitty_at_end() == other.reveals_kitty_at_end()
        &&& self.play_takeback_policy_setting() == other.play_takeback_policy_setting()
        &&& self.bid_takeback_policy_setting() == other.bid_takeback_policy_setting()
        &&& self.game_shadowing_policy_setting() == other.game_shadowing_policy_setting()
        &&& self.game_start_policy_setting() == other.game_start_policy_setting()
        &&& self.multiple_join_policy_setting() == other.multiple_join_policy_setting()
        &&& self.hides_throw_halting_player() == other.hides_throw_halting_player()
        &&& self.max_rank_setting() == other.max_rank_setting()
        &&& self.scoring_parameters().same_parameters(other.scoring_parameters())
        &&& self.bonus_policy_setting() == other.bonus_policy_setting()
    }

    pub fn players(&self) -> (r: &[Player])
        ensures
            r@ == self.players_spec(),
    {
        self.players.as_slice()
    }

    pub fn observers(&self) -> (r: &[Player])
        ensures
            r@ == self.observers_spec(),
    {
        self.observers.as_slice()
    }

    pub fn landlord(&self) -> (r: Option<PlayerID>)
        ensures
            r == self.landlord_spec(),
    {
        self.landlord
    }

    pub fn trick_draw_policy(&self) -> (r: TrickDrawPolicy)
        ensures
            r == self.trick_draw_policy_spec(),
    {
        self.trick_draw_policy
    }

    /// The number of decks: as set, or one for every two players.
    pub open spec fn num_decks_spec(self) -> int {
        match self.num_decks_setting() {
            Some(n) => n as int,
            None => self.players_spec().len() as int / 2,
        }
    }

    pub fn kitty_size(&self) -> (r: Option<usize>)
        ensures
            r == self.kitty_size_spec(),
    {
        self.kitty_size
    }

    pub fn num_decks(&self) -> (r: usize)
        ensures
            r == self.num_decks_spec(),
    {
        match self.num_decks {
            Some(n) => n,
            None => self.players.len() / 2,
        }
    }
}


/// The scheme of a URL, as the `url` crate reads it from a string, or `None`
/// when the string does not parse as an absolute URL.
pub uninterp spec fn url_scheme(input: Seq<char>) -> Option<Seq<char>>;

/// Calls `url::Url::parse` on the input and, when it parses, `Url::scheme`
/// on the result. The contract only ties the outcome to the input through
/// `url_scheme`; what the URL grammar accepts is not stated here.
#[verifier::external_body]
fn parse_url_scheme(input: &str) -> (r: Option<String>)
    ensures
        r matches Some(s) ==> url_scheme(input@) == Some(s@),
        r is None ==> url_scheme(input@) is None,
{
    match url::Url::parse(input) {
        Ok(u) => Some(u.scheme().to_string()),
        Err(_) => None,
    }
}

/// What a chat link's scheme, as parsed (`None` when the link is not a URL),
/// makes of the link: not a URL, a scheme other than https, or fine.
pub fn scheme_error(scheme: Option<String>) -> (r: Option<SettingsError>)
    ensures
        r == match scheme {
            None => Some(SettingsError::InvalidUrl),
            Some(s) => if s@ == "https"@ { None::<SettingsError> } else { Some(SettingsError::NotHttps) },
        },
{
    match scheme {
        None => Some(SettingsError::InvalidUrl),
        Some(s) => {
            let https = "https".to_owned();
            proof {
                reveal_strlit("https");
            }
            if s != https {
                Some(SettingsError::NotHttps)
            } else {
                None
            }
        },
    }
}

/// Whether some player of a list has the given name.
fn has_name(ps: &Vec<Player>, name: &String) -> (r: bool)
    ensures
        r == name_in(ps@, name@),
{
    let mut i: usize = 0;
    while i < ps.len()
        invariant
            i <= ps.len(),
            forall|j: int| 0 <= j < i ==> (#[trigger] ps@[j]).name@ != name@,
        decreases ps.len() - i,
    {
        if ps[i].name == *name {
            return true;
        }
        i += 1;
    }
    false
}

/// The position of the first player of a list with the given id.
fn position_of(ps: &Vec<Player>, id: PlayerID) -> (r: Option<usize>)
    ensures
        r matches Some(i) ==> i < ps.len() && ps@[i as int].id == id && ps@[i as int] == first_with_id(ps@, id),
        r is None <==> !id_in(ps@, id),
{
    let mut i: usize = 0;
    assert(ps@.subrange(0, ps.len() as int) =~= ps@);
    while i < ps.len()
        invariant
            i <= ps.len(),
            forall|j: int| 0 <= j < i ==> (#[trigger] ps@[j]).id != id,
            first_with_id(ps@, id) == first_with_id(ps@.subrange(i as int, ps.len() as int), id) || !id_in(ps@, id),
        decreases ps.len() - i,
    {
        if ps[i].id == id {
            proof {
                let rest = ps@.subrange(i as int, ps.len() as int);
                assert(rest[0] == ps@[i as int]);
            }
            return Some(i);
        }
        proof {
            let rest = ps@.subrange(i as int, ps.len() as int);
            assert(rest.drop_first() =~= ps@.subrange(i + 1, ps.len() as int));
        }
        i += 1;
    }
    None
}

/// The players of a list without those with the given id.
fn remove_id(ps: &Vec<Player>, id: PlayerID) -> (r: Vec<Player>)
    ensures
        r@ == without_id(ps@, id),
{
    let mut out: Vec<Player> = Vec::new();
    let mut i: usize = 0;
    while i < ps.len()
        invariant
            i <= ps.len(),
            out@ == without_id(ps@.subrange(0, i as int), id),
        decreases ps.len() - i,
    {
        proof {
            assert(ps@.subrange(0, i + 1).drop_last() =~= ps@.subrange(0, i as int));
        }
        if ps[i].id != id {
            out.push(ps[i].clone());
        }
        i += 1;
        assert(out@ =~= without_id(ps@.subrange(0, i as int), id));
    }
    assert(ps@.subrange(0, ps.len() as int) =~= ps@);
    out
}

/// A fresh player at level two.
pub open spec fn new_player(id: PlayerID, name: String) -> Player {
    Player { id, name, level: Rank::Number(Number::Two), metalevel: 1 }
}

impl PropagatedState {
    /// Adds an observer with a name that no player or observer has yet.
    pub fn add_observer(&mut self, name: String) -> (r: Result<PlayerID, SettingsError>)
        requires
            old(self).next_id() < usize::MAX,
        ensures
            (name_in(old(self).players_spec(), name@) || name_in(old(self).observers_spec(), name@))
                <==> r == Err::<PlayerID, SettingsError>(SettingsError::NameTaken),
            r is Err ==> *final(self) == *old(self) && r == Err::<PlayerID, SettingsError>(SettingsError::NameTaken),
            r matches Ok(id) ==> {
                &&& id == PlayerID(old(self).next_id())
                &&& final(self).observers_spec() == old(self).observers_spec().push(new_player(id, name))
                &&& final(self).players_spec() == old(self).players_spec()
                &&& final(self).landlord_spec() == old(self).landlord_spec()
                &&& final(self).next_id() == old(self).next_id() + 1
            },
    {
        let id = PlayerID(self.max_player_id);
        if has_name(&self.players, &name) || has_name(&self.observers, &name) {
            return Err(SettingsError::NameTaken);
        }
        self.max_player_id += 1;
        self.observers.push(Player::new(id, name));
        Ok(id)
    }

    /// Removes the observer with the given id, if any.
    pub fn remove_observer(&mut self, id: PlayerID) -> (r: Result<(), SettingsError>)
        ensures
            r is Ok,
            final(self).observers_spec() == without_id(old(self).observers_spec(), id),
            final(self).players_spec() == old(self).players_spec(),
            final(self).landlord_spec() == old(self).landlord_spec(),
            final(self).same_rules(*old(self)),
    {
        self.observers = remove_id(&self.observers, id);
        Ok(())
    }

    /// Puts the players in the given order. The order must name as many
    /// different ids as there are players, each of them a player.
    pub fn reorder_players(&mut self, order: &[PlayerID]) -> (r: Result<(), SettingsError>)
        ensures
            distinct_ids(order@) != old(self).players_spec().len()
                ==> r == Err::<(), SettingsError>(SettingsError::WrongNumberOfPlayers),
            distinct_ids(order@) == old(self).players_spec().len() ==> (r is Ok <==> forall|i: int| 0 <= i < order.len() ==> id_in(old(self).players_spec(), #[trigger] order@[i])),
            r is Err ==> *final(self) == *old(self) && (r == Err::<(), SettingsError>(SettingsError::WrongNumberOfPlayers)
                || r == Err::<(), SettingsError>(SettingsError::PlayerNotFound)),
            r is Ok ==> final(self).players_spec() == order@.map_values(|id: PlayerID| first_with_id(old(self).players_spec(), id)),
            r is Ok ==> final(self).observers_spec() == old(self).observers_spec() && final(self).landlord_spec() == old(self).landlord_spec()
                && final(self).same_rules(*old(self)),
    {
        let n = count_distinct(order);
        if n != self.players.len() {
            return Err(SettingsError::WrongNumberOfPlayers);
        }
        let mut new_players: Vec<Player> = Vec::new();
        let mut i: usize = 0;
        while i < order.len()
            invariant
                i <= order.len(),
                *self == *old(self),
                distinct_ids(order@) == self.players@.len(),
                new_players@ == order@.subrange(0, i as int).map_values(|id: PlayerID| first_with_id(self.players@, id)),
                forall|j: int| 0 <= j < i ==> id_in(self.players@, #[trigger] order@[j]),
            decreases order.len() - i,
        {
            match position_of(&self.players, order[i]) {
                Some(k) => {
                    new_players.push(self.players[k].clone());
                },
                None => {
                    return Err(SettingsError::PlayerNotFound);
                },
            }
            i += 1;
            assert(new_players@ =~= order@.subrange(0, i as int).map_values(|id: PlayerID| first_with_id(self.players@, id)));
        }
        assert(order@.subrange(0, order.len() as int) =~= order@);
        self.players = new_players;
        Ok(())
    }

    /// Makes a player the landlord, or clears the landlord.
    pub fn set_landlord(&mut self, landlord: Option<PlayerID>) -> (r: Result<(), SettingsError>)
        ensures
            landlord matches Some(id) ==> (r is Err <==> !id_in(old(self).players_spec(), id)),
            landlord is None ==> r is Ok,
            r is Err ==> r == Err::<(), SettingsError>(SettingsError::PlayerNotFound) && *final(self) == *old(self),
            r is Ok ==> final(self).landlord_spec() == landlord,
            final(self).players_spec() == old(self).players_spec(),
            final(self).observers_spec() == old(self).observers_spec(),
            final(self).next_id() == old(self).next_id(),
            final(self).same_rules(*old(self)),
    {
        match landlord {
            Some(id) => {
                if position_of(&self.players, id).is_some() {
                    self.landlord = Some(id);
                } else {
                    return Err(SettingsError::PlayerNotFound);
                }
            },
            None => {
                self.landlord = None;
            },
        }
        Ok(())
    }

    pub fn set_landlord_emoji(&mut self, emoji: Option<String>) -> (r: Result<(), SettingsError>)
        ensures
            r is Ok,
            final(self).landlord_emoji_spec() == emoji,
            final(self).players_spec() == old(self).players_spec(),
            final(self).observers_spec() == old(self).observers_spec(),
            final(self).landlord_spec() == old(self).landlord_spec(),
    {
        self.landlord_emoji = emoji;
        Ok(())
    }

    /// Sets the level of a player.
    pub fn set_rank(&mut self, player_id: PlayerID, level: Number) -> (r: Result<(), SettingsError>)
        ensures
            r is Ok <==> id_in(old(self).players_spec(), player_id),
            r is Err ==> r == Err::<(), SettingsError>(SettingsError::PlayerNotFound) && *final(self) == *old(self),
            r is Ok ==> exists|k: int| {
                &&& 0 <= k < old(self).players_spec().len()
                &&& (#[trigger] old(self).players_spec()[k]) == first_with_id(old(self).players_spec(), player_id)
                &&& final(self).players_spec() == old(self).players_spec().update(k, Player { level: Rank::Number(level), ..old(self).players_spec()[k] })
            },
            final(self).observers_spec() == old(self).observers_spec(),
            final(self).landlord_spec() == old(self).landlord_spec(),
            final(self).same_rules(*old(self)),
            final(self).next_id() == old(self).next_id(),
    {
        match position_of(&self.players, player_id) {
            Some(k) => {
                let mut p = self.players[k].clone();
                p.set_rank(Rank::Number(level));
                self.players.set(k, p);
                proof {
                    assert(old(self).players_spec()[k as int] == first_with_id(old(self).players_spec(), player_id));
                    assert(self.players@ =~= old(self).players@.update(k as int, Player { level: Rank::Number(level), ..old(self).players@[k as int] }));
                }
                Ok(())
            },
            None => Err(SettingsError::PlayerNotFound),
        }
    }

    /// Sets the chat link: at most 127 bytes, and an https URL.
    pub fn set_chat_link(&mut self, chat_link: Option<String>) -> (r: Result<(), SettingsError>)
        ensures
            r == match chat_link_error(chat_link) {
                Some(e) => Err::<(), SettingsError>(e),
                None => Ok(()),
            },
            match chat_link {
                Some(l) => if (vstd::utf8::encode_utf8(l@).len() as usize) >= 128 {
                    r == Err::<(), SettingsError>(SettingsError::LinkTooLong)
                } else {
                    match url_scheme(l@) {
                        None => r == Err::<(), SettingsError>(SettingsError::InvalidUrl),
                        Some(s) => if s == "https"@ { r is Ok } else { r == Err::<(), SettingsError>(SettingsError::NotHttps) },
                    }
                },
                None => r is Ok,
            },
            r is Ok ==> final(self).chat_link_spec() == chat_link,
            r is Err ==> *final(self) == *old(self),
            final(self).players_spec() == old(self).players_spec(),
            final(self).observers_spec() == old(self).observers_spec(),
    {
        match &chat_link {
            Some(link) => {
                if link.as_str().len() >= 128 {
                    return Err(SettingsError::LinkTooLong);
                }
                match scheme_error(parse_url_scheme(link.as_str())) {
                    Some(e) => {
                        return Err(e);
                    },
                    None => {},
                }
            },
            None => {},
        }
        self.chat_link = chat_link;
        Ok(())
    }
}

/// The number of different ids in a slice.
fn count_distinct(ids: &[PlayerID]) -> (r: usize)
    ensures
        r == distinct_ids(ids@),
{
    let mut n: usize = 0;
    let mut i: usize = 0;
    assert(ids@.subrange(0, 0).to_set() =~= Set::<PlayerID>::empty());
    while i < ids.len()
        invariant
            i <= ids.len(),
            n == ids@.subrange(0, i as int).to_set().len(),
            n <= i,
        decreases ids.len() - i,
    {
        let mut seen = false;
        let mut j: usize = 0;
        while j < i
            invariant
                j <= i < ids.len(),
                seen == exists|q: int| 0 <= q < j && ids@[q] == ids@[i as int],
            decreases i - j,
        {
            if ids[j] == ids[i] {
                seen = true;
            }
            j += 1;
        }
        proof {
            let pre = ids@.subrange(0, i as int);
            assert(ids@.subrange(0, i + 1) =~= pre.push(ids@[i as int]));
            pre.lemma_push_to_set_commute(ids@[i as int]);
            vstd::seq_lib::seq_to_set_is_finite(pre);
            if seen {
                let q = choose|q: int| 0 <= q < i && ids@[q] == ids@[i as int];
                assert(pre[q] == ids@[i as int]);
                assert(pre.to_set().contains(ids@[i as int]));
                assert(pre.to_set().insert(ids@[i as int]) =~= pre.to_set());
            } else {
                assert(!pre.to_set().contains(ids@[i as int])) by {
                    if pre.to_set().contains(ids@[i as int]) {
                        let q = choose|q: int| 0 <= q < pre.len() && pre[q] == ids@[i as int];
                        assert(ids@[q] == ids@[i as int]);
                    }
                }
            }
        }
        if !seen {
            n += 1;
        }
        i += 1;
    }
    assert(ids@.subrange(0, ids.len() as int) =~= ids@);
    n
}


/// The rules of the next games, one setting each.
impl PropagatedState {
    pub closed spec fn friend_selection_policy_setting(self) -> FriendSelectionPolicy {
        self.friend_selection_policy
    }

    pub closed spec fn first_landlord_selection_policy_setting(self) -> FirstLandlordSelectionPolicy {
        self.first_landlord_selection_policy
    }

    pub closed spec fn bid_policy_setting(self) -> BidPolicy {
        self.bid_policy
    }

    pub closed spec fn should_reveal_kitty_at_end_of_game_setting(self) -> bool {
        self.should_reveal_kitty_at_end_of_game
    }

    pub closed spec fn throw_penalty_setting(self) -> ThrowPenalty {
        self.throw_penalty
    }

    pub closed spec fn kitty_penalty_setting(self) -> KittyPenalty {
        self.kitty_penalty
    }

    pub closed spec fn kitty_bid_policy_setting(self) -> KittyBidPolicy {
        self.kitty_bid_policy
    }

    pub fn kitty_bid_policy(&self) -> (r: KittyBidPolicy)
        ensures
            r == self.kitty_bid_policy_setting(),
    {
        self.kitty_bid_policy
    }

    pub closed spec fn trick_draw_policy_setting(self) -> TrickDrawPolicy {
        self.trick_draw_policy
    }

    pub closed spec fn throw_evaluation_policy_setting(self) -> ThrowEvaluationPolicy {
        self.throw_evaluation_policy
    }

    pub closed spec fn play_takeback_policy_setting(self) -> PlayTakebackPolicy {
        self.play_takeback_policy
    }

    pub closed spec fn bid_takeback_policy_setting(self) -> BidTakebackPolicy {
        self.bid_takeback_policy
    }

    pub closed spec fn advancement_policy_setting(self) -> AdvancementPolicy {
        self.advancement_policy
    }

    pub closed spec fn kitty_theft_policy_setting(self) -> KittyTheftPolicy {
        self.kitty_theft_policy
    }

    pub fn game_shadowing_policy(&self) -> (r: GameShadowingPolicy)
        ensures
            r == self.game_shadowing_policy_setting(),
    {
        self.game_shadowing_policy
    }

    pub closed spec fn game_shadowing_policy_setting(self) -> GameShadowingPolicy {
        self.game_shadowing_policy
    }

    pub closed spec fn game_start_policy_setting(self) -> GameStartPolicy {
        self.game_start_policy
    }

    /// Changes the setting and tells the players.
    pub fn set_friend_selection_policy(&mut self, policy: FriendSelectionPolicy) -> (r: Result<Vec<MessageVariant>, SettingsError>)
        ensures
            final(self).friend_selection_policy_setting() == policy,
            final(self).players_spec() == old(self).players_spec() && final(self).observers_spec() == old(self).observers_spec()
                && final(self).landlord_spec() == old(self).landlord_spec(),
            r matches Ok(msgs) && msgs.len() == 1 && msgs@[0] == (MessageVariant::FriendSelectionPolicySet { policy }),
    {
        self.friend_selection_policy = policy;
        let mut msgs: Vec<MessageVariant> = Vec::new();
        msgs.push(MessageVariant::FriendSelectionPolicySet { policy });
        Ok(msgs)
    }

    /// Changes the setting and tells the players.
    pub fn set_first_landlord_selection_policy(&mut self, policy: FirstLandlordSelectionPolicy) -> (r: Result<Vec<MessageVariant>, SettingsError>)
        ensures
            final(self).first_landlord_selection_policy_setting() == policy,
            final(self).players_spec() == old(self).players_spec() && final(self).observers_spec() == old(self).observers_spec()
                && final(self).landlord_spec() == old(self).landlord_spec(),
            r matches Ok(msgs) && msgs.len() == 1 && msgs@[0] == (MessageVariant::FirstLandlordSelectionPolicySet { policy }),
    {
        self.first_landlord_selection_policy = policy;
        let mut msgs: Vec<MessageVariant> = Vec::new();
        msgs.push(MessageVariant::FirstLandlordSelectionPolicySet { policy });
        Ok(msgs)
    }

    /// Changes the setting and tells the players.
    pub fn set_bid_policy(&mut self, policy: BidPolicy) -> (r: Result<Vec<MessageVariant>, SettingsError>)
        ensures
            final(self).bid_policy_setting() == policy,
            final(self).players_spec() == old(self).players_spec() && final(self).observers_spec() == old(self).observers_spec()
                && final(self).landlord_spec() == old(self).landlord_spec(),
            r matches Ok(msgs) && msgs.len() == 1 && msgs@[0] == (MessageVariant::BidPolicySet { policy }),
    {
        self.bid_policy = policy;
        let mut msgs: Vec<MessageVariant> = Vec::new();
        msgs.push(MessageVariant::BidPolicySet { policy });
        Ok(msgs)
    }

    /// Changes the setting and tells the players.
    pub fn set_should_reveal_kitty_at_end_of_game(&mut self, should_reveal: bool) -> (r: Result<Vec<MessageVariant>, SettingsError>)
        ensures
            final(self).should_reveal_kitty_at_end_of_game_setting() == should_reveal,
            final(self).players_spec() == old(self).players_spec() && final(self).observers_spec() == old(self).observers_spec()
                && final(self).landlord_spec() == old(self).landlord_spec(),
            r matches Ok(msgs) && msgs.len() == 1 && msgs@[0] == (MessageVariant::ShouldRevealKittyAtEndOfGameSet { should_reveal }),
    {
        self.should_reveal_kitty_at_end_of_game = should_reveal;
        let mut msgs: Vec<MessageVariant> = Vec::new();
        msgs.push(MessageVariant::ShouldRevealKittyAtEndOfGameSet { should_reveal });
        Ok(msgs)
    }

    /// Changes the setting, telling the players when it changes.
    pub fn set_throw_penalty(&mut self, penalty: ThrowPenalty) -> (r: Result<Vec<MessageVariant>, SettingsError>)
        ensures
            final(self).throw_penalty_setting() == penalty,
            final(self).players_spec() == old(self).players_spec() && final(self).observers_spec() == old(self).observers_spec()
                && final(self).landlord_spec() == old(self).landlord_spec(),
            r matches Ok(msgs) && (old(self).throw_penalty_setting() == penalty ==> msgs.len() == 0)
                && (old(self).throw_penalty_setting() != penalty ==> msgs.len() == 1 && msgs@[0] == (MessageVariant::ThrowPenaltySet { throw_penalty: penalty })),
    {
        if penalty != self.throw_penalty {
            self.throw_penalty = penalty;
            let mut msgs: Vec<MessageVariant> = Vec::new();
            msgs.push(MessageVariant::ThrowPenaltySet { throw_penalty: penalty });
            Ok(msgs)
        } else {
            Ok(Vec::new())
        }
    }

    /// Changes the setting, telling the players when it changes.
    pub fn set_kitty_penalty(&mut self, penalty: KittyPenalty) -> (r: Result<Vec<MessageVariant>, SettingsError>)
        ensures
            final(self).kitty_penalty_setting() == penalty,
            final(self).players_spec() == old(self).players_spec() && final(self).observers_spec() == old(self).observers_spec()
                && final(self).landlord_spec() == old(self).landlord_spec(),
            r matches Ok(msgs) && (old(self).kitty_penalty_setting() == penalty ==> msgs.len() == 0)
                && (old(self).kitty_penalty_setting() != penalty ==> msgs.len() == 1 && msgs@[0] == (MessageVariant::KittyPenaltySet { kitty_penalty: penalty })),
    {
        if penalty != self.kitty_penalty {
            self.kitty_penalty = penalty;
            let mut msgs: Vec<MessageVariant> = Vec::new();
            msgs.push(MessageVariant::KittyPenaltySet { kitty_penalty: penalty });
            Ok(msgs)
        } else {
            Ok(Vec::new())
        }
    }

    /// Changes the setting, telling the players when it changes.
    pub fn set_kitty_bid_policy(&mut self, policy: KittyBidPolicy) -> (r: Result<Vec<MessageVariant>, SettingsError>)
        ensures
            final(self).kitty_bid_policy_setting() == policy,
            final(self).players_spec() == old(self).players_spec() && final(self).observers_spec() == old(self).observers_spec()
                && final(self).landlord_spec() == old(self).landlord_spec(),
            r matches Ok(msgs) && (old(self).kitty_bid_policy_setting() == policy ==> msgs.len() == 0)
                && (old(self).kitty_bid_policy_setting() != policy ==> msgs.len() == 1 && msgs@[0] == (MessageVariant::KittyBidPolicySet { policy })),
    {
        if policy != self.kitty_bid_policy {
            self.kitty_bid_policy = policy;
            let mut msgs: Vec<MessageVariant> = Vec::new();
            msgs.push(MessageVariant::KittyBidPolicySet { policy });
            Ok(msgs)
        } else {
            Ok(Vec::new())
        }
    }

    /// Changes the setting, telling the players when it changes.
    pub fn set_trick_draw_policy(&mut self, policy: TrickDrawPolicy) -> (r: Result<Vec<MessageVariant>, SettingsError>)
        ensures
            final(self).trick_draw_policy_setting() == policy,
            final(self).players_spec() == old(self).players_spec() && final(self).observers_spec() == old(self).observers_spec()
                && final(self).landlord_spec() == old(self).landlord_spec(),
            r matches Ok(msgs) && (old(self).trick_draw_policy_setting() == policy ==> msgs.len() == 0)
                && (old(self).trick_draw_policy_setting() != policy ==> msgs.len() == 1 && msgs@[0] == (MessageVariant::TrickDrawPolicySet { policy })),
    {
        if policy != self.trick_draw_policy {
            self.trick_draw_policy = policy;
            let mut msgs: Vec<MessageVariant> = Vec::new();
            msgs.push(MessageVariant::TrickDrawPolicySet { policy });
            Ok(msgs)
        } else {
            Ok(Vec::new())
        }
    }

    /// Changes the setting, telling the players when it changes.
    pub fn set_throw_evaluation_policy(&mut self, policy: ThrowEvaluationPolicy) -> (r: Result<Vec<MessageVariant>, SettingsError>)
        ensures
            final(self).throw_evaluation_policy_setting() == policy,
            final(self).players_spec() == old(self).players_spec() && final(self).observers_spec() == old(self).observers_spec()
                && final(self).landlord_spec() == old(self).landlord_spec(),
            r matches Ok(msgs) && (old(self).throw_evaluation_policy_setting() == policy ==> msgs.len() == 0)
                && (old(self).throw_evaluation_policy_setting() != policy ==> msgs.len() == 1 && msgs@[0] == (MessageVariant::ThrowEvaluationPolicySet { policy })),
    {
        if policy != self.throw_evaluation_policy {
            self.throw_evaluation_policy = policy;
            let mut msgs: Vec<MessageVariant> = Vec::new();
            msgs.push(MessageVariant::ThrowEvaluationPolicySet { policy });
            Ok(msgs)
        } else {
            Ok(Vec::new())
        }
    }

    /// Changes the setting, telling the players when it changes.
    pub fn set_play_takeback_policy(&mut self, policy: PlayTakebackPolicy) -> (r: Result<Vec<MessageVariant>, SettingsError>)
        ensures
            final(self).play_takeback_policy_setting() == policy,
            final(self).players_spec() == old(self).players_spec() && final(self).observers_spec() == old(self).observers_spec()
                && final(self).landlord_spec() == old(self).landlord_spec(),
            r matches Ok(msgs) && (old(self).play_takeback_policy_setting() == policy ==> msgs.len() == 0)
                && (old(self).play_takeback_policy_setting() != policy ==> msgs.len() == 1 && msgs@[0] == (MessageVariant::PlayTakebackPolicySet { policy })),
    {
        if policy != self.play_takeback_policy {
            self.play_takeback_policy = policy;
            let mut msgs: Vec<MessageVariant> = Vec::new();
            msgs.push(MessageVariant::PlayTakebackPolicySet { policy });
            Ok(msgs)
        } else {
            Ok(Vec::new())
        }
    }

    /// Changes the setting, telling the players when it changes.
    pub fn set_bid_takeback_policy(&mut self, policy: BidTakebackPolicy) -> (r: Result<Vec<MessageVariant>, SettingsError>)
        ensures
            final(self).bid_takeback_policy_setting() == policy,
            final(self).players_spec() == old(self).players_spec() && final(self).observers_spec() == old(self).observers_spec()
                && final(self).landlord_spec() == old(self).landlord_spec(),
            r matches Ok(msgs) && (old(self).bid_takeback_policy_setting() == policy ==> msgs.len() == 0)
                && (old(self).bid_takeback_policy_setting() != policy ==> msgs.len() == 1 && msgs@[0] == (MessageVariant::BidTakebackPolicySet { policy })),
    {
        if policy != self.bid_takeback_policy {
            self.bid_takeback_policy = policy;
            let mut msgs: Vec<MessageVariant> = Vec::new();
            msgs.push(MessageVariant::BidTakebackPolicySet { policy });
            Ok(msgs)
        } else {
            Ok(Vec::new())
        }
    }

    /// Changes the setting, telling the players when it changes.
    pub fn set_advancement_policy(&mut self, policy: AdvancementPolicy) -> (r: Result<Vec<MessageVariant>, SettingsError>)
        ensures
            final(self).advancement_policy_setting() == policy,
            final(self).players_spec() == old(self).players_spec() && final(self).observers_spec() == old(self).observers_spec()
                && final(self).landlord_spec() == old(self).landlord_spec(),
            r matches Ok(msgs) && (old(self).advancement_policy_setting() == policy ==> msgs.len() == 0)
                && (old(self).advancement_policy_setting() != policy ==> msgs.len() == 1 && msgs@[0] == (MessageVariant::AdvancementPolicySet { policy })),
    {
        if policy != self.advancement_policy {
            self.advancement_policy = policy;
            let mut msgs: Vec<MessageVariant> = Vec::new();
            msgs.push(MessageVariant::AdvancementPolicySet { policy });
            Ok(msgs)
        } else {
            Ok(Vec::new())
        }
    }

    /// Changes the setting, telling the players when it changes.
    pub fn set_kitty_theft_policy(&mut self, policy: KittyTheftPolicy) -> (r: Result<Vec<MessageVariant>, SettingsError>)
        ensures
            final(self).kitty_theft_policy_setting() == policy,
            final(self).players_spec() == old(self).players_spec() && final(self).observers_spec() == old(self).observers_spec()
                && final(self).landlord_spec() == old(self).landlord_spec(),
            r matches Ok(msgs) && (old(self).kitty_theft_policy_setting() == policy ==> msgs.len() == 0)
                && (old(self).kitty_theft_policy_setting() != policy ==> msgs.len() == 1 && msgs@[0] == (MessageVariant::KittyTheftPolicySet { policy })),
    {
        if policy != self.kitty_theft_policy {
            self.kitty_theft_policy = policy;
            let mut msgs: Vec<MessageVariant> = Vec::new();
            msgs.push(MessageVariant::KittyTheftPolicySet { policy });
            Ok(msgs)
        } else {
            Ok(Vec::new())
        }
    }

    /// Changes the setting, telling the players when it changes.
    pub fn set_user_multiple_game_session_policy(&mut self, policy: GameShadowingPolicy) -> (r: Result<Vec<MessageVariant>, SettingsError>)
        ensures
            final(self).game_shadowing_policy_setting() == policy,
            final(self).players_spec() == old(self).players_spec() && final(self).observers_spec() == old(self).observers_spec()
                && final(self).landlord_spec() == old(self).landlord_spec(),
            r matches Ok(msgs) && (old(self).game_shadowing_policy_setting() == policy ==> msgs.len() == 0)
                && (old(self).game_shadowing_policy_setting() != policy ==> msgs.len() == 1 && msgs@[0] == (MessageVariant::GameShadowingPolicySet { policy })),
    {
        if policy != self.game_shadowing_policy {
            self.game_shadowing_policy = policy;
            let mut msgs: Vec<MessageVariant> = Vec::new();
            msgs.push(MessageVariant::GameShadowingPolicySet { policy });
            Ok(msgs)
        } else {
            Ok(Vec::new())
        }
    }

    /// Changes the setting, telling the players when it changes.
    pub fn set_game_start_policy(&mut self, policy: GameStartPolicy) -> (r: Result<Vec<MessageVariant>, SettingsError>)
        ensures
            final(self).game_start_policy_setting() == policy,
            final(self).players_spec() == old(self).players_spec() && final(self).observers_spec() == old(self).observers_spec()
                && final(self).landlord_spec() == old(self).landlord_spec(),
            r matches Ok(msgs) && (old(self).game_start_policy_setting() == policy ==> msgs.len() == 0)
                && (old(self).game_start_policy_setting() != policy ==> msgs.len() == 1 && msgs@[0] == (MessageVariant::GameStartPolicySet { policy })),
    {
        if policy != self.game_start_policy {
            self.game_start_policy = policy;
            let mut msgs: Vec<MessageVariant> = Vec::new();
            msgs.push(MessageVariant::GameStartPolicySet { policy });
            Ok(msgs)
        } else {
            Ok(Vec::new())
        }
    }

    /// Hides or shows the points of the landlord's team.
    pub fn hide_landlord_points(&mut self, should_hide: bool) -> (r: Result<MessageVariant, SettingsError>)
        ensures
            final(self).hides_landlord_points() == should_hide,
            final(self).players_spec() == old(self).players_spec(),
            r == Ok::<MessageVariant, SettingsError>(MessageVariant::SetDefendingPointVisibility { visible: !should_hide }),
    {
        self.hide_landlord_points = should_hide;
        Ok(MessageVariant::SetDefendingPointVisibility { visible: !should_hide })
    }

    pub closed spec fn hides_landlord_points(self) -> bool {
        self.hide_landlord_points
    }

    /// Hides or shows the cards played.
    pub fn hide_played_cards(&mut self, should_hide: bool) -> (r: Result<MessageVariant, SettingsError>)
        ensures
            final(self).hides_played_cards() == should_hide,
            final(self).players_spec() == old(self).players_spec(),
            r == Ok::<MessageVariant, SettingsError>(MessageVariant::SetCardVisibility { visible: !should_hide }),
    {
        self.hide_played_cards = should_hide;
        Ok(MessageVariant::SetCardVisibility { visible: !should_hide })
    }

    pub closed spec fn hides_played_cards(self) -> bool {
        self.hide_played_cards
    }

    pub fn set_game_mode(&mut self, game_mode: GameModeSettings) -> (r: Result<Vec<MessageVariant>, SettingsError>)
        ensures
            final(self).game_mode_spec() == game_mode,
            final(self).players_spec() == old(self).players_spec(),
            r matches Ok(msgs) && msgs.len() == 1 && msgs@[0] == (MessageVariant::GameModeSet { game_mode }),
    {
        self.game_mode = game_mode;
        let mut msgs: Vec<MessageVariant> = Vec::new();
        msgs.push(MessageVariant::GameModeSet { game_mode });
        Ok(msgs)
    }
}


impl Clone for GameMode {
    fn clone(&self) -> (r: Self)
        ensures
            r.same_mode(*self),
    {
        match self {
            GameMode::Tractor => GameMode::Tractor,
            GameMode::FindingFriends { num_friends, friends } => GameMode::FindingFriends {
                num_friends: *num_friends,
                friends: vstd::slice::slice_to_vec(friends.as_slice()),
            },
        }
    }
}

impl GameMode {
    /// The same mode, with the same friends.
    pub open spec fn same_mode(self, other: GameMode) -> bool {
        match (self, other) {
            (GameMode::Tractor, GameMode::Tractor) => true,
            (GameMode::FindingFriends { num_friends: a, friends: fa }, GameMode::FindingFriends { num_friends: b, friends: fb }) => a == b
                && fa@ == fb@,
            _ => false,
        }
    }
}

/// A copy of a list of players.
fn clone_players(ps: &Vec<Player>) -> (r: Vec<Player>)
    ensures
        r@ == ps@,
{
    let mut out: Vec<Player> = Vec::new();
    let mut i: usize = 0;
    while i < ps.len()
        invariant
            i <= ps.len(),
            out@ == ps@.subrange(0, i as int),
        decreases ps.len() - i,
    {
        out.push(ps[i].clone());
        i += 1;
        assert(out@ =~= ps@.subrange(0, i as int));
    }
    assert(ps@.subrange(0, ps.len() as int) =~= ps@);
    out
}

impl Clone for PropagatedState {
    fn clone(&self) -> (r: Self)
        ensures
            r.same_state(*self),
    {
        PropagatedState {
            game_mode: self.game_mode,
            hide_landlord_points: self.hide_landlord_points,
            kitty_size: self.kitty_size,
            friend_selection_policy: self.friend_selection_policy,
            num_decks: self.num_decks,
            max_player_id: self.max_player_id,
            players: clone_players(&self.players),
            observers: clone_players(&self.observers),
            landlord: self.landlord,
            landlord_emoji: self.landlord_emoji.clone(),
            chat_link: self.chat_link.clone(),
            advancement_policy: self.advancement_policy,
            kitty_penalty: self.kitty_penalty,
            throw_penalty: self.throw_penalty,
            hide_played_cards: self.hide_played_cards,
            num_games_finished: self.num_games_finished,
            kitty_bid_policy: self.kitty_bid_policy,
            kitty_theft_policy: self.kitty_theft_policy,
            trick_draw_policy: self.trick_draw_policy,
            throw_evaluation_policy: self.throw_evaluation_policy,
            first_landlord_selection_policy: self.first_landlord_selection_policy,
            bid_policy: self.bid_policy,
            bid_reinforcement_policy: self.bid_reinforcement_policy,
            joker_bid_policy: self.joker_bid_policy,
            should_reveal_kitty_at_end_of_game: self.should_reveal_kitty_at_end_of_game,
            play_takeback_policy: self.play_takeback_policy,
            bid_takeback_policy: self.bid_takeback_policy,
            game_shadowing_policy: self.game_shadowing_policy,
            game_start_policy: self.game_start_policy,
            multiple_join_policy: self.multiple_join_policy,
            hide_throw_halting_player: self.hide_throw_halting_player,
            max_rank: self.max_rank,
            game_scoring_parameters: self.game_scoring_parameters.clone(),
            bonus_level_policy: self.bonus_level_policy,
        }
    }
}

impl PropagatedState {
    /// The same players, observers, landlord and rules.
    pub open spec fn same_state(self, other: PropagatedState) -> bool {
        &&& self.players_spec() == other.players_spec()
        &&& self.observers_spec() == other.observers_spec()
        &&& self.landlord_spec() == other.landlord_spec()
        &&& self.next_id() == other.next_id()
        &&& self.same_rules(other)
    }
}


/// Settings that the phases of a game read.
impl PropagatedState {
    pub closed spec fn bid_reinforcement_policy_setting(self) -> BidReinforcementPolicy {
        self.bid_reinforcement_policy
    }

    pub closed spec fn joker_bid_policy_setting(self) -> JokerBidPolicy {
        self.joker_bid_policy
    }

    pub fn first_landlord_selection_policy(&self) -> (r: FirstLandlordSelectionPolicy)
        ensures
            r == self.first_landlord_selection_policy_setting(),
    {
        self.first_landlord_selection_policy
    }

    pub fn bid_policy(&self) -> (r: BidPolicy)
        ensures
            r == self.bid_policy_setting(),
    {
        self.bid_policy
    }

    pub fn bid_reinforcement_policy(&self) -> (r: BidReinforcementPolicy)
        ensures
            r == self.bid_reinforcement_policy_setting(),
    {
        self.bid_reinforcement_policy
    }

    pub fn joker_bid_policy(&self) -> (r: JokerBidPolicy)
        ensures
            r == self.joker_bid_policy_setting(),
    {
        self.joker_bid_policy
    }

    pub fn bid_takeback_policy(&self) -> (r: BidTakebackPolicy)
        ensures
            r == self.bid_takeback_policy_setting(),
    {
        self.bid_takeback_policy
    }

    pub fn kitty_theft_policy(&self) -> (r: KittyTheftPolicy)
        ensures
            r == self.kitty_theft_policy_setting(),
    {
        self.kitty_theft_policy
    }

    pub fn friend_selection_policy(&self) -> (r: FriendSelectionPolicy)
        ensures
            r == self.friend_selection_policy_setting(),
    {
        self.friend_selection_policy
    }

    pub fn game_start_policy(&self) -> (r: GameStartPolicy)
        ensures
            r == self.game_start_policy_setting(),
    {
        self.game_start_policy
    }

    pub fn game_mode(&self) -> (r: GameModeSettings)
        ensures
            r == self.game_mode_spec(),
    {
        self.game_mode
    }
}


/// Some parameters equal to the default ones.
pub open spec fn default_parameters() -> GameScoringParameters {
    choose|p: GameScoringParameters| p.is_default()
}

/// The same messages, or the same error.
pub open spec fn same_outcome(a: Result<Seq<MessageVariant>, SettingsError>, b: Result<Seq<MessageVariant>, SettingsError>) -> bool {
    match (a, b) {
        (Ok(m1), Ok(m2)) => same_messages(m1, m2),
        (Err(e1), Err(e2)) => e1 == e2,
        _ => false,
    }
}

/// Whether a result holds the expected messages, or the expected error.
pub open spec fn outcome_matches(r: Result<Vec<MessageVariant>, SettingsError>, expected: Result<Seq<MessageVariant>, SettingsError>) -> bool {
    match (r, expected) {
        (Ok(v), Ok(m)) => same_messages(v@, m),
        (Err(e1), Err(e2)) => e1 == e2,
        _ => false,
    }
}

impl PropagatedState {
    pub closed spec fn scoring_parameters(self) -> GameScoringParameters {
        self.game_scoring_parameters
    }

    pub closed spec fn bonus_policy_setting(self) -> BonusLevelPolicy {
        self.bonus_level_policy
    }

    /// The state with another kitty size.
    pub closed spec fn with_kitty_size(self, kitty_size: Option<usize>) -> PropagatedState {
        PropagatedState { kitty_size, ..self }
    }

    /// The state with another number of decks and the default kitty size.
    pub closed spec fn with_decks(self, num_decks: Option<usize>) -> PropagatedState {
        PropagatedState { num_decks, kitty_size: None, ..self }
    }

    /// The state with other scoring parameters, and their bonus policy.
    pub closed spec fn with_scoring(self, p: GameScoringParameters) -> PropagatedState {
        PropagatedState { game_scoring_parameters: p, bonus_level_policy: p.bonus_policy(), ..self }
    }

    /// The state with another game mode.
    pub closed spec fn with_game_mode(self, game_mode: GameModeSettings) -> PropagatedState {
        PropagatedState { game_mode, ..self }
    }

    /// A state with the given players, observers, landlord and next id, and
    /// otherwise the same settings.
    pub open spec fn with_roster(self, players: Seq<Player>, observers: Seq<Player>, landlord: Option<PlayerID>, next_id: usize) -> PropagatedState {
        choose|s: PropagatedState| {
            &&& s.players_spec() == players
            &&& s.observers_spec() == observers
            &&& s.landlord_spec() == landlord
            &&& s.next_id() == next_id
            &&& s.same_rules(self)
        }
    }

    /// The number of decks after setting it to `num_decks`.
    pub open spec fn decks_after(self, num_decks: Option<usize>) -> int {
        match num_decks {
            Some(n) => n as int,
            None => self.players_spec().len() as int / 2,
        }
    }

    /// Why a kitty size cannot be set, if it cannot: there must be players,
    /// and the size must be below the number of cards and leave a number of
    /// cards that the players can share out evenly.
    pub open spec fn kitty_size_error(self, size: usize) -> Option<SettingsError> {
        let n = self.players_spec().len() as int;
        let deck_len = self.num_decks_spec() * (full_deck().len() as int);
        if n == 0 {
            Some(SettingsError::NoPlayers)
        } else if size >= deck_len {
            Some(SettingsError::KittyTooLarge)
        } else if deck_len % n != (size as int) % n {
            Some(SettingsError::KittyNotMultipleOfRemainder)
        } else {
            None
        }
    }

    /// What setting the scoring parameters comes to: nothing when they are
    /// the same; an error when they cannot be used with the current number
    /// of decks; otherwise the new parameters and one message.
    pub open spec fn scoring_outcome(self, p: GameScoringParameters) -> (PropagatedState, Result<Seq<MessageVariant>, SettingsError>) {
        if p.same_parameters(self.scoring_parameters()) {
            (self, Ok(Seq::empty()))
        } else {
            match p.acceptance_error(self.num_decks_spec() as usize, 100) {
                Some(e) => (self, Err(SettingsError::Scoring { source: e })),
                None => (
                    self.with_scoring(p),
                    Ok(seq![MessageVariant::GameScoringParametersChanged { parameters: p, old_parameters: self.scoring_parameters() }]),
                ),
            }
        }
    }

    /// What setting the number of decks comes to: an error for no decks;
    /// nothing when it does not change; otherwise the new number, the default
    /// kitty size, and the default scoring parameters when the current ones
    /// do not work out for the new number of decks.
    pub open spec fn decks_outcome(self, num_decks: Option<usize>) -> (PropagatedState, Result<Seq<MessageVariant>, SettingsError>) {
        if num_decks == Some(0usize) {
            (self, Err(SettingsError::NoDecks))
        } else if num_decks == self.num_decks_setting() {
            (self, Ok(Seq::empty()))
        } else {
            let s1 = self.with_decks(num_decks);
            let m1 = seq![MessageVariant::NumDecksSet { num_decks }] + (if self.kitty_size_spec() is Some {
                seq![MessageVariant::KittySizeSet { size: None }]
            } else {
                Seq::empty()
            });
            if self.scoring_parameters().materialize_error(self.decks_after(num_decks) as usize, 100) is None {
                (s1, Ok(m1))
            } else {
                let o = s1.scoring_outcome(default_parameters());
                (o.0, match o.1 {
                    Ok(m2) => Ok(m1 + m2),
                    Err(e) => Err(e),
                })
            }
        }
    }

    /// What a change in the players comes to: the number of decks goes back
    /// to its default, and a chosen number of friends is cleared.
    pub open spec fn players_changed_outcome(self) -> (PropagatedState, Result<Seq<MessageVariant>, SettingsError>) {
        let o = self.decks_outcome(None);
        match o.1 {
            Err(e) => (o.0, Err(e)),
            Ok(m) => match o.0.game_mode_spec() {
                GameModeSettings::FindingFriends { num_friends: Some(_) } => {
                    let mode = GameModeSettings::FindingFriends { num_friends: None };
                    (o.0.with_game_mode(mode), Ok(m.push(MessageVariant::GameModeSet { game_mode: mode })))
                },
                _ => (o.0, Ok(m)),
            },
        }
    }

    /// The scoring for the decks that `n` players make up, and the cards of
    /// those decks, can be worked out without overflow.
    pub open spec fn can_recount(self, n: int) -> bool {
        &&& (n / 2) * 100 + 5000 <= window_bound()
        &&& self.num_decks_setting() is Some ==> self.scoring_parameters().in_range((n / 2) as usize, 100)
    }

    proof fn lemma_same_state_refl(self)
        ensures
            self.same_state(self),
    {
    }

    /// Equivalent scoring parameters, set on one state, come to equivalent
    /// outcomes, once some materialized windows are known to exist.
    proof fn lemma_scoring_outcome_same(self, p: GameScoringParameters, q: GameScoringParameters)
        requires
            p.same_parameters(q),
            !p.same_parameters(self.scoring_parameters()) && p.materialize_error(self.num_decks_spec() as usize, 100) is None
                ==> exists|m: crate::scoring::MaterializedScoringParameters| {
                &&& m.wins() == p.materialized_windows(self.num_decks_spec() as usize, 100).0
                &&& m.loses() == p.materialized_windows(self.num_decks_spec() as usize, 100).1
                &&& m.decks() == self.num_decks_spec() as usize
                &&& m.points_per_deck() == 100
            },
        ensures
            self.scoring_outcome(p).0.same_state(self.scoring_outcome(q).0),
            same_outcome(self.scoring_outcome(p).1, self.scoring_outcome(q).1),
    {
        let nd = self.num_decks_spec() as usize;
        if !p.same_parameters(self.scoring_parameters()) && p.materialize_error(nd, 100) is None {
            let a = p.materialized_for(nd, 100);
            let b = q.materialized_for(nd, 100);
            a.lemma_explain_same_windows(b);
        }
        let o = self.scoring_outcome(p).1;
        if let Ok(m) = o {
            assert(same_messages(m, self.scoring_outcome(q).1->Ok_0));
        }
    }

    /// Equivalent states come to equivalent outcomes when the same scoring
    /// parameters are set.
    proof fn lemma_scoring_outcome_states(self, other: Self, p: GameScoringParameters)
        requires
            self.same_state(other),
        ensures
            self.scoring_outcome(p).0.same_state(other.scoring_outcome(p).0),
            same_outcome(self.scoring_outcome(p).1, other.scoring_outcome(p).1),
    {
        assert(self.num_decks_spec() == other.num_decks_spec());
        if let Ok(m) = self.scoring_outcome(p).1 {
            assert(same_messages(m, other.scoring_outcome(p).1->Ok_0));
        }
    }

    /// Equivalent states come to equivalent outcomes when the same number of
    /// decks is set.
    proof fn lemma_decks_outcome_same(self, other: Self, num_decks: Option<usize>)
        requires
            self.same_state(other),
        ensures
            self.decks_outcome(num_decks).0.same_state(other.decks_outcome(num_decks).0),
            same_outcome(self.decks_outcome(num_decks).1, other.decks_outcome(num_decks).1),
    {
        if num_decks != Some(0usize) && num_decks != self.num_decks_setting() {
            let a1 = self.with_decks(num_decks);
            let b1 = other.with_decks(num_decks);
            assert(a1.same_state(b1));
            let m1 = seq![MessageVariant::NumDecksSet { num_decks }] + (if self.kitty_size_spec() is Some {
                seq![MessageVariant::KittySizeSet { size: None }]
            } else {
                Seq::empty()
            });
            assert(same_messages(m1, m1));
            if self.scoring_parameters().materialize_error(self.decks_after(num_decks) as usize, 100) is Some {
                let d = default_parameters();
                a1.lemma_scoring_outcome_states(b1, d);
                if let Ok(m2) = a1.scoring_outcome(d).1 {
                    let m3 = b1.scoring_outcome(d).1->Ok_0;
                    crate::message::lemma_same_messages_concat(m2, m3, m1, Seq::empty());
                    assert(m1 + m2 + Seq::empty() =~= m1 + m2);
                    assert(m1 + m3 + Seq::empty() =~= m1 + m3);
                }
            }
        }
    }

    /// Equivalent states come to equivalent outcomes when the players change.
    proof fn lemma_players_changed_same(self, other: Self)
        requires
            self.same_state(other),
        ensures
            self.players_changed_outcome().0.same_state(other.players_changed_outcome().0),
            same_outcome(self.players_changed_outcome().1, other.players_changed_outcome().1),
    {
        self.lemma_decks_outcome_same(other, None);
        let da = self.decks_outcome(None);
        let db = other.decks_outcome(None);
        if let Ok(m) = da.1 {
            let m2 = db.1->Ok_0;
            let mode = GameModeSettings::FindingFriends { num_friends: None };
            let g = seq![MessageVariant::GameModeSet { game_mode: mode }];
            crate::message::lemma_same_messages_concat(m, m2, Seq::empty(), g);
            assert(Seq::empty() + m + g =~= m.push(MessageVariant::GameModeSet { game_mode: mode }));
            assert(Seq::empty() + m2 + g =~= m2.push(MessageVariant::GameModeSet { game_mode: mode }));
        }
    }
}


impl PropagatedState {
    /// Sets the number of cards in the kitty, or its default with `None`.
    pub fn set_kitty_size(&mut self, kitty_size: Option<usize>) -> (r: Result<Option<MessageVariant>, SettingsError>)
        requires
            old(self).num_decks_spec() * 54 <= usize::MAX,
        ensures
            kitty_size == old(self).kitty_size_spec() ==> r == Ok::<Option<MessageVariant>, SettingsError>(None) && *final(self) == *old(self),
            kitty_size != old(self).kitty_size_spec() ==> match kitty_size {
                Some(s) => match old(self).kitty_size_error(s) {
                    Some(e) => r == Err::<Option<MessageVariant>, SettingsError>(e) && *final(self) == *old(self),
                    None => r == Ok::<Option<MessageVariant>, SettingsError>(Some((MessageVariant::KittySizeSet { size: kitty_size })))
                        && *final(self) == old(self).with_kitty_size(kitty_size),
                },
                None => r == Ok::<Option<MessageVariant>, SettingsError>(Some((MessageVariant::KittySizeSet { size: None })))
                    && *final(self) == old(self).with_kitty_size(None),
            },
    {
        let unchanged = match (self.kitty_size, kitty_size) {
            (Some(a), Some(b)) => a == b,
            (None, None) => true,
            _ => false,
        };
        if unchanged {
            return Ok(None);
        }
        match kitty_size {
            Some(size) => {
                if self.players.len() == 0 {
                    return Err(SettingsError::NoPlayers);
                }
                let deck_len = self.num_decks() * FULL_DECK().len();
                if size >= deck_len {
                    return Err(SettingsError::KittyTooLarge);
                }
                if deck_len % self.players.len() != size % self.players.len() {
                    return Err(SettingsError::KittyNotMultipleOfRemainder);
                }
                self.kitty_size = Some(size);
            },
            None => {
                self.kitty_size = None;
            },
        }
        Ok(Some(MessageVariant::KittySizeSet { size: self.kitty_size }))
    }

    fn replace_scoring_parameters(&mut self, parameters: GameScoringParameters) -> (r: Result<Vec<MessageVariant>, SettingsError>)
        requires
            parameters.in_range(old(self).num_decks_spec() as usize, 100),
            old(self).num_decks_spec() * 100 + 5000 <= isize::MAX,
        ensures
            *final(self) == old(self).scoring_outcome(parameters).0,
            outcome_matches(r, old(self).scoring_outcome(parameters).1),
            !parameters.same_parameters(old(self).scoring_parameters()) && parameters.materialize_error(old(self).num_decks_spec() as usize, 100) is None
                ==> exists|m: crate::scoring::MaterializedScoringParameters| {
                &&& m.wins() == parameters.materialized_windows(old(self).num_decks_spec() as usize, 100).0
                &&& m.loses() == parameters.materialized_windows(old(self).num_decks_spec() as usize, 100).1
                &&& m.decks() == old(self).num_decks_spec() as usize
                &&& m.points_per_deck() == 100
            },
    {
        if parameters == self.game_scoring_parameters {
            return Ok(Vec::new());
        }
        let nd = self.num_decks();
        match parameters.check_acceptance(nd, 100) {
            Ok(()) => {},
            Err(e) => {
                return Err(SettingsError::Scoring { source: e });
            },
        }
        let new_copy = parameters.clone();
        let bonus = parameters.bonus_level_policy();
        let mut old_parameters = parameters;
        std::mem::swap(&mut self.game_scoring_parameters, &mut old_parameters);
        self.bonus_level_policy = bonus;
        let mut msgs: Vec<MessageVariant> = Vec::new();
        msgs.push(MessageVariant::GameScoringParametersChanged { parameters: new_copy, old_parameters });
        proof {
            assert(same_messages(msgs@, old(self).scoring_outcome(parameters).1->Ok_0));
        }
        Ok(msgs)
    }

    /// Sets the scoring parameters, once they are shown to work out for the
    /// current number of decks.
    pub fn set_game_scoring_parameters(&mut self, parameters: GameScoringParameters) -> (r: Result<Vec<MessageVariant>, SettingsError>)
        requires
            parameters.in_range(old(self).num_decks_spec() as usize, 100),
            old(self).num_decks_spec() * 100 + 5000 <= isize::MAX,
        ensures
            *final(self) == old(self).scoring_outcome(parameters).0,
            outcome_matches(r, old(self).scoring_outcome(parameters).1),
    {
        self.replace_scoring_parameters(parameters)
    }
}


/// Whether two optional numbers are equal.
fn same_option(a: Option<usize>, b: Option<usize>) -> (r: bool)
    ensures
        r == (a == b),
{
    match (a, b) {
        (Some(x), Some(y)) => x == y,
        (None, None) => true,
        _ => false,
    }
}

impl PropagatedState {
    /// Sets the number of decks, or its default of one for every two players
    /// with `None`. A change resets the kitty size, and the scoring parameters
    /// when they do not work out for the new number of decks.
    pub fn set_num_decks(&mut self, num_decks: Option<usize>) -> (r: Result<Vec<MessageVariant>, SettingsError>)
        requires
            num_decks != Some(0usize) && num_decks != old(self).num_decks_setting() ==> {
                &&& old(self).decks_after(num_decks) * 100 + 5000 <= window_bound()
                &&& old(self).scoring_parameters().in_range(old(self).decks_after(num_decks) as usize, 100)
            },
        ensures
            final(self).same_state(old(self).decks_outcome(num_decks).0),
            outcome_matches(r, old(self).decks_outcome(num_decks).1),
    {
        if same_option(num_decks, Some(0)) {
            proof {
                self.lemma_same_state_refl();
            }
            return Err(SettingsError::NoDecks);
        }
        let mut msgs: Vec<MessageVariant> = Vec::new();
        if same_option(self.num_decks, num_decks) {
            proof {
                self.lemma_same_state_refl();
            }
            return Ok(msgs);
        }
        msgs.push(MessageVariant::NumDecksSet { num_decks });
        self.num_decks = num_decks;
        proof {
            assert(self.num_decks_spec() == old(self).decks_after(num_decks));
        }
        match self.set_kitty_size(None) {
            Ok(Some(m)) => {
                msgs.push(m);
            },
            Ok(None) => {},
            Err(e) => {
                return Err(e);
            },
        }
        let ghost s1 = *self;
        let ghost m1 = msgs@;
        proof {
            assert(s1 == old(self).with_decks(num_decks));
            assert(m1 =~= seq![MessageVariant::NumDecksSet { num_decks }] + (if old(self).kitty_size_spec() is Some {
                seq![MessageVariant::KittySizeSet { size: None }]
            } else {
                Seq::empty()
            }));
        }
        let nd = self.num_decks();
        if self.game_scoring_parameters.materialize(nd, 100).is_err() {
            let d = GameScoringParameters::default();
            proof {
                assert(d.is_default());
                d.lemma_default_in_range(nd);
                let dp = default_parameters();
                assert(dp.is_default());
                assert(d.same_parameters(dp));
            }
            match self.replace_scoring_parameters(d) {
                Ok(mut more) => {
                    let ghost m2 = more@;
                    msgs.append(&mut more);
                    proof {
                        let dp = default_parameters();
                        s1.lemma_scoring_outcome_same(d, dp);
                        assert(same_messages(m2, s1.scoring_outcome(d).1->Ok_0));
                        crate::message::lemma_same_messages_concat(m2, s1.scoring_outcome(dp).1->Ok_0, m1, Seq::empty());
                        assert(m1 + m2 + Seq::empty() =~= msgs@);
                        assert(m1 + s1.scoring_outcome(dp).1->Ok_0 + Seq::empty() =~= m1 + s1.scoring_outcome(dp).1->Ok_0);
                    }
                },
                Err(e) => {
                    proof {
                        let dp = default_parameters();
                        s1.lemma_scoring_outcome_same(d, dp);
                    }
                    return Err(e);
                },
            }
        } else {
            proof {
                self.lemma_same_state_refl();
                assert(same_messages(msgs@, msgs@));
            }
        }
        Ok(msgs)
    }

    fn num_players_changed(&mut self) -> (r: Result<Vec<MessageVariant>, SettingsError>)
        requires
            old(self).can_recount(old(self).players_spec().len() as int),
        ensures
            final(self).same_state(old(self).players_changed_outcome().0),
            outcome_matches(r, old(self).players_changed_outcome().1),
    {
        let mut msgs = match self.set_num_decks(None) {
            Ok(m) => m,
            Err(e) => {
                return Err(e);
            },
        };
        let ghost mid = *self;
        if let GameModeSettings::FindingFriends { num_friends: Some(_) } = self.game_mode {
            let mode = GameModeSettings::FindingFriends { num_friends: None };
            self.game_mode = mode;
            let ghost before = msgs@;
            msgs.push(MessageVariant::GameModeSet { game_mode: mode });
            proof {
                let o = old(self).decks_outcome(None);
                assert(*self == mid.with_game_mode(mode));
                assert(mid.with_game_mode(mode).same_state(o.0.with_game_mode(mode)));
                let g = seq![MessageVariant::GameModeSet { game_mode: mode }];
                crate::message::lemma_same_messages_concat(before, o.1->Ok_0, Seq::empty(), g);
                assert(Seq::empty() + before + g =~= msgs@);
                assert(Seq::empty() + o.1->Ok_0 + g =~= (o.1->Ok_0).push(MessageVariant::GameModeSet { game_mode: mode }));
            }
        }
        Ok(msgs)
    }
}


/// Whether a result holds the expected value and messages, or the expected error.
pub open spec fn joined_outcome_matches(
    r: Result<(PlayerID, Vec<MessageVariant>), SettingsError>,
    id: PlayerID,
    expected: Result<Seq<MessageVariant>, SettingsError>,
) -> bool {
    match (r, expected) {
        (Ok((rid, v)), Ok(m)) => rid == id && same_messages(v@, seq![MessageVariant::JoinedGame { player: id }] + m),
        (Err(e1), Err(e2)) => e1 == e2,
        _ => false,
    }
}

/// The messages for observers who join the game, in the order given.
pub open spec fn joined_messages(ps: Seq<Player>) -> Seq<MessageVariant> {
    ps.map_values(|p: Player| MessageVariant::JoinedGame { player: p.id })
}

impl PropagatedState {
    /// What a change to the players comes to, from the players, observers,
    /// landlord and next id after the change.
    #[verifier::opaque]
    pub open spec fn roster_outcome(self, players: Seq<Player>, observers: Seq<Player>, landlord: Option<PlayerID>, next_id: usize)
        -> (PropagatedState, Result<Seq<MessageVariant>, SettingsError>) {
        self.with_roster(players, observers, landlord, next_id).players_changed_outcome()
    }

    /// Runs `num_players_changed` on a state whose players just changed, and
    /// relates the result to `roster_outcome`.
    fn recount(&mut self, Ghost(base): Ghost<PropagatedState>) -> (r: Result<Vec<MessageVariant>, SettingsError>)
        requires
            old(self).same_rules(base),
            old(self).can_recount(old(self).players_spec().len() as int),
        ensures
            final(self).same_state(base.roster_outcome(old(self).players_spec(), old(self).observers_spec(), old(self).landlord_spec(), old(self).next_id()).0),
            outcome_matches(r, base.roster_outcome(old(self).players_spec(), old(self).observers_spec(), old(self).landlord_spec(), old(self).next_id()).1),
            r matches Err(e) ==> e is Scoring,
    {
        let ghost start = *self;
        proof {
            reveal(PropagatedState::roster_outcome);
            let c = base.with_roster(start.players_spec(), start.observers_spec(), start.landlord_spec(), start.next_id());
            assert(c.same_state(start));
            start.lemma_players_changed_same(c);
        }
        self.num_players_changed()
    }

    /// Adds a player with a name that no player or observer has yet.
    pub fn add_player(&mut self, name: String) -> (r: Result<(PlayerID, Vec<MessageVariant>), SettingsError>)
        requires
            old(self).next_id() < usize::MAX,
            old(self).can_recount(old(self).players_spec().len() + 1int),
        ensures
            (name_in(old(self).players_spec(), name@) || name_in(old(self).observers_spec(), name@))
                <==> r == Err::<(PlayerID, Vec<MessageVariant>), SettingsError>(SettingsError::NameTaken),
            r == Err::<(PlayerID, Vec<MessageVariant>), SettingsError>(SettingsError::NameTaken) ==> *final(self) == *old(self),
            !(name_in(old(self).players_spec(), name@) || name_in(old(self).observers_spec(), name@)) ==> {
                let id = PlayerID(old(self).next_id());
                let o = old(self).roster_outcome(
                    old(self).players_spec().push(new_player(id, name)),
                    old(self).observers_spec(),
                    old(self).landlord_spec(),
                    (old(self).next_id() + 1) as usize,
                );
                &&& final(self).same_state(o.0)
                &&& joined_outcome_matches(r, id, o.1)
            },
    {
        let id = PlayerID(self.max_player_id);
        if has_name(&self.players, &name) || has_name(&self.observers, &name) {
            return Err(SettingsError::NameTaken);
        }
        let ghost base = *self;
        self.max_player_id += 1;
        self.players.push(Player::new(id, name));
        let mut msgs: Vec<MessageVariant> = Vec::new();
        msgs.push(MessageVariant::JoinedGame { player: id });
        match self.recount(Ghost(base)) {
            Ok(mut more) => {
                let ghost m2 = more@;
                msgs.append(&mut more);
                proof {
                    let o = base.roster_outcome(base.players_spec().push(new_player(id, name)), base.observers_spec(), base.landlord_spec(), (base.next_id() + 1) as usize);
                    crate::message::lemma_same_messages_concat(m2, o.1->Ok_0, seq![MessageVariant::JoinedGame { player: id }], Seq::empty());
                    assert(seq![MessageVariant::JoinedGame { player: id }] + m2 + Seq::empty() =~= msgs@);
                    assert(seq![MessageVariant::JoinedGame { player: id }] + o.1->Ok_0 + Seq::empty() =~= seq![MessageVariant::JoinedGame { player: id }] + o.1->Ok_0);
                }
                Ok((id, msgs))
            },
            Err(e) => {
                Err(e)
            },
        }
    }

    /// Removes a player, and the landlord with them.
    pub fn remove_player(&mut self, id: PlayerID) -> (r: Result<Vec<MessageVariant>, SettingsError>)
        requires
            old(self).can_recount(without_id(old(self).players_spec(), id).len() as int),
        ensures
            !id_in(old(self).players_spec(), id) ==> r == Err::<Vec<MessageVariant>, SettingsError>(SettingsError::PlayerNotFound) && *final(self) == *old(self),
            id_in(old(self).players_spec(), id) ==> {
                let o = old(self).roster_outcome(
                    without_id(old(self).players_spec(), id),
                    old(self).observers_spec(),
                    if old(self).landlord_spec() == Some(id) { None } else { old(self).landlord_spec() },
                    old(self).next_id(),
                );
                let left = MessageVariant::LeftGame { name: first_with_id(old(self).players_spec(), id).name };
                &&& final(self).same_state(o.0)
                &&& outcome_matches(r, match o.1 {
                    Ok(m) => Ok(seq![left] + m),
                    Err(e) => Err(e),
                })
            },
    {
        let k = match position_of(&self.players, id) {
            Some(k) => k,
            None => {
                return Err(SettingsError::PlayerNotFound);
            },
        };
        let name = self.players[k].name.clone();
        let ghost base = *self;
        let mut msgs: Vec<MessageVariant> = Vec::new();
        msgs.push(MessageVariant::LeftGame { name });
        self.landlord = landlord_without(self.landlord, id);
        self.players = remove_id(&self.players, id);
        match self.recount(Ghost(base)) {
            Ok(mut more) => {
                let ghost m2 = more@;
                msgs.append(&mut more);
                proof {
                    let left = MessageVariant::LeftGame { name: first_with_id(base.players_spec(), id).name };
                    let o = base.roster_outcome(without_id(base.players_spec(), id), base.observers_spec(), if base.landlord_spec() == Some(id) { None } else { base.landlord_spec() }, base.next_id());
                    crate::message::lemma_same_messages_concat(m2, o.1->Ok_0, seq![left], Seq::empty());
                    assert(seq![left] + m2 + Seq::empty() =~= msgs@);
                    assert(seq![left] + o.1->Ok_0 + Seq::empty() =~= seq![left] + o.1->Ok_0);
                }
                Ok(msgs)
            },
            Err(e) => Err(e),
        }
    }

    /// Moves a player to the observers, clearing the landlord if it was them.
    pub fn make_observer(&mut self, player_id: PlayerID) -> (r: Result<Vec<MessageVariant>, SettingsError>)
        requires
            old(self).can_recount(without_id(old(self).players_spec(), player_id).len() as int),
        ensures
            !id_in(old(self).players_spec(), player_id) ==> r == Err::<Vec<MessageVariant>, SettingsError>(SettingsError::PlayerNotFound) && *final(self) == *old(self),
            id_in(old(self).players_spec(), player_id) ==> {
                let o = old(self).roster_outcome(
                    without_id(old(self).players_spec(), player_id),
                    old(self).observers_spec().push(first_with_id(old(self).players_spec(), player_id)),
                    if old(self).landlord_spec() == Some(player_id) { None } else { old(self).landlord_spec() },
                    old(self).next_id(),
                );
                &&& final(self).same_state(o.0)
                &&& outcome_matches(r, o.1)
            },
    {
        let k = match position_of(&self.players, player_id) {
            Some(k) => k,
            None => {
                return Err(SettingsError::PlayerNotFound);
            },
        };
        let player = self.players[k].clone();
        let ghost base = *self;
        let ghost moved = first_with_id(base.players_spec(), player_id);
        let players = remove_id(&self.players, player_id);
        self.players = players;
        self.landlord = landlord_without(self.landlord, player_id);
        self.observers.push(player);
        assert(self.same_rules(base));
        assert(self.observers_spec() == base.observers_spec().push(moved));
        self.recount(Ghost(base))
    }

    /// Moves an observer to the players.
    pub fn make_player(&mut self, player_id: PlayerID) -> (r: Result<Vec<MessageVariant>, SettingsError>)
        requires
            old(self).can_recount(old(self).players_spec().len() + 1int),
        ensures
            !id_in(old(self).observers_spec(), player_id) ==> r == Err::<Vec<MessageVariant>, SettingsError>(SettingsError::PlayerNotFound) && *final(self) == *old(self),
            id_in(old(self).observers_spec(), player_id) ==> {
                let o = old(self).roster_outcome(
                    old(self).players_spec().push(first_with_id(old(self).observers_spec(), player_id)),
                    without_id(old(self).observers_spec(), player_id),
                    old(self).landlord_spec(),
                    old(self).next_id(),
                );
                &&& final(self).same_state(o.0)
                &&& outcome_matches(r, o.1)
            },
    {
        let k = match position_of(&self.observers, player_id) {
            Some(k) => k,
            None => {
                return Err(SettingsError::PlayerNotFound);
            },
        };
        let player = self.observers[k].clone();
        let ghost base = *self;
        self.observers = remove_id(&self.observers, player_id);
        self.players.push(player);
        self.recount(Ghost(base))
    }

    /// Moves every observer to the players, the last observer first.
    pub fn make_all_observers_into_players(&mut self) -> (r: Result<Vec<MessageVariant>, SettingsError>)
        requires
            old(self).can_recount((old(self).players_spec().len() + old(self).observers_spec().len()) as int),
        ensures
            old(self).observers_spec().len() == 0 ==> (r matches Ok(v) && v@.len() == 0 && *final(self) == *old(self)),
            old(self).observers_spec().len() > 0 ==> {
                let o = old(self).roster_outcome(
                    old(self).players_spec() + old(self).observers_spec().reverse(),
                    Seq::empty(),
                    old(self).landlord_spec(),
                    old(self).next_id(),
                );
                &&& final(self).same_state(o.0)
                &&& outcome_matches(r, match o.1 {
                    Ok(m) => Ok(joined_messages(old(self).observers_spec().reverse()) + m),
                    Err(e) => Err(e),
                })
            },
    {
        if self.observers.len() == 0 {
            return Ok(Vec::new());
        }
        let ghost base = *self;
        let mut msgs: Vec<MessageVariant> = Vec::new();
        while self.observers.len() > 0
            invariant
                self.same_rules(base),
                self.landlord_spec() == base.landlord_spec(),
                self.next_id() == base.next_id(),
                self.observers_spec().len() <= base.observers_spec().len(),
                self.observers_spec() == base.observers_spec().subrange(0, self.observers_spec().len() as int),
                self.players_spec() == base.players_spec() + base.observers_spec().reverse().subrange(0, base.observers_spec().len() - self.observers_spec().len()),
                msgs@ == joined_messages(base.observers_spec().reverse().subrange(0, base.observers_spec().len() - self.observers_spec().len())),
            decreases self.observers.len(),
        {
            let ghost before = self.observers_spec();
            let player = self.observers.pop().unwrap();
            msgs.push(MessageVariant::JoinedGame { player: player.id });
            self.players.push(player);
            proof {
                let n = base.observers_spec().len();
                let k = before.len() as int;
                let done = n - self.observers_spec().len();
                assert(player == before[k - 1]);
                assert(player == base.observers_spec()[k - 1]);
                assert(base.observers_spec().reverse()[done - 1] == player);
                assert(base.observers_spec().reverse().subrange(0, done) =~= base.observers_spec().reverse().subrange(0, done - 1).push(player));
                assert(self.players_spec() =~= base.players_spec() + base.observers_spec().reverse().subrange(0, done));
                assert(msgs@ =~= joined_messages(base.observers_spec().reverse().subrange(0, done)));
                assert(self.observers_spec() =~= base.observers_spec().subrange(0, self.observers_spec().len() as int));
            }
        }
        proof {
            let n = base.observers_spec().len() as int;
            assert(base.observers_spec().reverse().subrange(0, n) =~= base.observers_spec().reverse());
            assert(self.observers_spec() =~= Seq::<Player>::empty());
            assert(self.players_spec() =~= base.players_spec() + base.observers_spec().reverse());
        }
        let ghost joined = msgs@;
        match self.recount(Ghost(base)) {
            Ok(mut more) => {
                let ghost m2 = more@;
                msgs.append(&mut more);
                proof {
                    let o = base.roster_outcome(base.players_spec() + base.observers_spec().reverse(), Seq::empty(), base.landlord_spec(), base.next_id());
                    crate::message::lemma_same_messages_concat(m2, o.1->Ok_0, joined, Seq::empty());
                    assert(joined + m2 + Seq::empty() =~= msgs@);
                    assert(joined + o.1->Ok_0 + Seq::empty() =~= joined + o.1->Ok_0);
                }
                Ok(msgs)
            },
            Err(e) => Err(e),
        }
    }
}

/// The landlord, unless it is the given player.
fn landlord_without(landlord: Option<PlayerID>, id: PlayerID) -> (r: Option<PlayerID>)
    ensures
        r == (if landlord == Some(id) { None } else { landlord }),
{
    match landlord {
        Some(l) => if l.0 == id.0 {
            None
        } else {
            Some(l)
        },
        None => None,
    }
}

/// Removing the observer that was just added, with an id no earlier
/// observer has, leaves the observers as they were.
pub proof fn lemma_remove_observer_undoes_add(observers: Seq<Player>, p: Player)
    requires
        forall|i: int| 0 <= i < observers.len() ==> (#[trigger] observers[i]).id != p.id,
    ensures
        without_id(observers.push(p), p.id) == observers,
    decreases observers.len(),
{
    lemma_without_absent(observers, p.id);
    assert(observers.push(p).drop_last() =~= observers);
}

/// Removing an id that no player of a list has leaves the list as it is.
pub proof fn lemma_without_absent(ps: Seq<Player>, id: PlayerID)
    requires
        forall|i: int| 0 <= i < ps.len() ==> (#[trigger] ps[i]).id != id,
    ensures
        without_id(ps, id) == ps,
    decreases ps.len(),
{
    if ps.len() > 0 {
        lemma_without_absent(ps.drop_last(), id);
        assert(ps.drop_last().push(ps.last()) =~= ps);
        assert(ps.drop_last() + seq![ps.last()] =~= ps);
    }
}

/// A full deck of 54 cards.
pub open spec fn standard_deck() -> Deck {
    Deck { exclude_small_joker: false, exclude_big_joker: false, min: Number::Two }
}

impl PropagatedState {
    /// The decks a game is played with: as many full decks as the number of
    /// decks, which must not be 0.
    pub fn decks(&self) -> (r: Result<Vec<Deck>, SettingsError>)
        ensures
            self.num_decks_spec() == 0 <==> r is Err,
            r is Err ==> r == Err::<Vec<Deck>, SettingsError>(SettingsError::NoDecks),
            r matches Ok(v) ==> v@ == Seq::new(self.num_decks_spec() as nat, |i: int| standard_deck()),
    {
        let n = self.num_decks();
        if n == 0 {
            return Err(SettingsError::NoDecks);
        }
        let mut decks: Vec<Deck> = Vec::new();
        let mut i: usize = 0;
        while i < n
            invariant
                i <= n,
                decks@ == Seq::new(i as nat, |j: int| standard_deck()),
            decreases n - i,
        {
            decks.push(Deck::default());
            i += 1;
            assert(decks@ =~= Seq::new(i as nat, |j: int| standard_deck()));
        }
        Ok(decks)
    }
}

/// Settings that the play reads.
impl PropagatedState {
    pub closed spec fn multiple_join_policy_setting(self) -> MultipleJoinPolicy {
        self.multiple_join_policy
    }

    pub closed spec fn hides_throw_halting_player(self) -> bool {
        self.hide_throw_halting_player
    }

    pub closed spec fn max_rank_setting(self) -> Rank {
        self.max_rank
    }

    pub closed spec fn reveals_kitty_at_end(self) -> bool {
        self.should_reveal_kitty_at_end_of_game
    }

    pub closed spec fn games_finished(self) -> usize {
        self.num_games_finished
    }

    pub closed spec fn with_multiple_join_policy(self, v: MultipleJoinPolicy) -> PropagatedState {
        PropagatedState { multiple_join_policy: v, ..self }
    }

    pub closed spec fn with_hidden_throw_halting(self, v: bool) -> PropagatedState {
        PropagatedState { hide_throw_halting_player: v, ..self }
    }

    pub closed spec fn with_max_rank(self, v: Rank) -> PropagatedState {
        PropagatedState { max_rank: v, ..self }
    }

    pub fn set_multiple_join_policy(&mut self, policy: MultipleJoinPolicy) -> (r: Result<Vec<MessageVariant>, SettingsError>)
        ensures
            *final(self) == old(self).with_multiple_join_policy(policy),
            r matches Ok(msgs) && msgs@ == seq![MessageVariant::MultipleJoinPolicySet { policy }],
    {
        self.multiple_join_policy = policy;
        let mut msgs: Vec<MessageVariant> = Vec::new();
        msgs.push(MessageVariant::MultipleJoinPolicySet { policy });
        Ok(msgs)
    }

    pub fn set_hide_throw_halting_player(&mut self, hide: bool) -> (r: Result<Vec<MessageVariant>, SettingsError>)
        ensures
            *final(self) == old(self).with_hidden_throw_halting(hide),
            r matches Ok(msgs) && msgs@ == seq![MessageVariant::HideThrowHaltingPlayer { set: hide }],
    {
        self.hide_throw_halting_player = hide;
        let mut msgs: Vec<MessageVariant> = Vec::new();
        msgs.push(MessageVariant::HideThrowHaltingPlayer { set: hide });
        Ok(msgs)
    }

    pub closed spec fn with_bid_reinforcement_policy(self, v: BidReinforcementPolicy) -> PropagatedState {
        PropagatedState { bid_reinforcement_policy: v, ..self }
    }

    pub closed spec fn with_joker_bid_policy(self, v: JokerBidPolicy) -> PropagatedState {
        PropagatedState { joker_bid_policy: v, ..self }
    }

    pub fn set_bid_reinforcement_policy(&mut self, policy: BidReinforcementPolicy) -> (r: Result<Vec<MessageVariant>, SettingsError>)
        ensures
            *final(self) == old(self).with_bid_reinforcement_policy(policy),
            final(self).bid_reinforcement_policy_setting() == policy,
            r matches Ok(msgs) && msgs@ == seq![MessageVariant::BidReinforcementPolicySet { policy }],
    {
        self.bid_reinforcement_policy = policy;
        let mut msgs: Vec<MessageVariant> = Vec::new();
        msgs.push(MessageVariant::BidReinforcementPolicySet { policy });
        Ok(msgs)
    }

    pub fn set_joker_bid_policy(&mut self, policy: JokerBidPolicy) -> (r: Result<Vec<MessageVariant>, SettingsError>)
        ensures
            *final(self) == old(self).with_joker_bid_policy(policy),
            final(self).joker_bid_policy_setting() == policy,
            r matches Ok(msgs) && msgs@ == seq![MessageVariant::JokerBidPolicySet { policy }],
    {
        self.joker_bid_policy = policy;
        let mut msgs: Vec<MessageVariant> = Vec::new();
        msgs.push(MessageVariant::JokerBidPolicySet { policy });
        Ok(msgs)
    }

    /// Sets the meta-rank of a player: how many times they went past the
    /// last rank.
    pub fn set_meta_rank(&mut self, player_id: PlayerID, metalevel: usize) -> (r: Result<(), SettingsError>)
        ensures
            r is Ok <==> id_in(old(self).players_spec(), player_id),
            r is Err ==> r == Err::<(), SettingsError>(SettingsError::PlayerNotFound) && *final(self) == *old(self),
            r is Ok ==> exists|k: int| {
                &&& 0 <= k < old(self).players_spec().len()
                &&& (#[trigger] old(self).players_spec()[k]) == first_with_id(old(self).players_spec(), player_id)
                &&& final(self).players_spec() == old(self).players_spec().update(k, Player { metalevel, ..old(self).players_spec()[k] })
            },
            final(self).observers_spec() == old(self).observers_spec(),
            final(self).landlord_spec() == old(self).landlord_spec(),
    {
        match position_of(&self.players, player_id) {
            Some(k) => {
                let mut p = self.players[k].clone();
                p.set_meta_rank(metalevel);
                self.players.set(k, p);
                proof {
                    assert(old(self).players_spec()[k as int] == first_with_id(old(self).players_spec(), player_id));
                    assert(self.players@ =~= old(self).players@.update(k as int, Player { metalevel, ..old(self).players@[k as int] }));
                }
                Ok(())
            },
            None => Err(SettingsError::PlayerNotFound),
        }
    }

    pub fn set_max_rank(&mut self, max_rank: Rank)
        ensures
            *final(self) == old(self).with_max_rank(max_rank),
    {
        self.max_rank = max_rank;
    }

    pub fn multiple_join_policy(&self) -> (r: MultipleJoinPolicy)
        ensures
            r == self.multiple_join_policy_setting(),
    {
        self.multiple_join_policy
    }

    pub fn hide_throw_halting_player(&self) -> (r: bool)
        ensures
            r == self.hides_throw_halting_player(),
    {
        self.hide_throw_halting_player
    }

    pub fn max_rank(&self) -> (r: Rank)
        ensures
            r == self.max_rank_setting(),
    {
        self.max_rank
    }

    pub fn played_cards_hidden(&self) -> (r: bool)
        ensures
            r == self.hides_played_cards(),
    {
        self.hide_played_cards
    }

    pub fn hide_landlord_points_setting(&self) -> (r: bool)
        ensures
            r == self.hides_landlord_points(),
    {
        self.hide_landlord_points
    }

    pub fn throw_penalty(&self) -> (r: ThrowPenalty)
        ensures
            r == self.throw_penalty_setting(),
    {
        self.throw_penalty
    }

    pub fn kitty_penalty(&self) -> (r: KittyPenalty)
        ensures
            r == self.kitty_penalty_setting(),
    {
        self.kitty_penalty
    }

    pub fn throw_evaluation_policy(&self) -> (r: ThrowEvaluationPolicy)
        ensures
            r == self.throw_evaluation_policy_setting(),
    {
        self.throw_evaluation_policy
    }

    pub fn play_takeback_policy(&self) -> (r: PlayTakebackPolicy)
        ensures
            r == self.play_takeback_policy_setting(),
    {
        self.play_takeback_policy
    }

    pub fn should_reveal_kitty_at_end_of_game(&self) -> (r: bool)
        ensures
            r == self.reveals_kitty_at_end(),
    {
        self.should_reveal_kitty_at_end_of_game
    }

    pub fn advancement_policy(&self) -> (r: AdvancementPolicy)
        ensures
            r == self.advancement_policy_setting(),
    {
        self.advancement_policy
    }
}

impl PropagatedState {
    /// Equivalent states agree on every setting that the game reads.
    pub proof fn lemma_same_state_settings(self, other: Self, n: int)
        requires
            self.same_state(other),
        ensures
            self.num_decks_setting() == other.num_decks_setting(),
            self.kitty_size_spec() == other.kitty_size_spec(),
            self.num_decks_spec() == other.num_decks_spec(),
            self.can_recount(n) == other.can_recount(n),
            self.game_mode_spec() == other.game_mode_spec(),
            self.hides_landlord_points() == other.hides_landlord_points(),
            self.max_rank_setting() == other.max_rank_setting(),
            self.advancement_policy_setting() == other.advancement_policy_setting(),
            self.games_finished() == other.games_finished(),
    {
    }
}

impl PropagatedState {
    /// Moves every player up the levels their side won at the end of a game
    /// (see `compute_player_level_deltas`).
    pub fn settle_levels(&mut self, landlords_team: &[PlayerID], s: crate::game_state::play_phase::LevelSettlement) -> (r: Vec<MessageVariant>)
        requires
            forall|i: int| 0 <= i < old(self).players_spec().len() ==> (#[trigger] old(self).players_spec()[i]).metalevel + s.landlord_level_bump
                + s.non_landlord_level_bump <= usize::MAX,
        ensures
            final(self).players_spec().len() == old(self).players_spec().len(),
            forall|i: int| 0 <= i < old(self).players_spec().len() ==> (#[trigger] final(self).players_spec()[i])
                == crate::game_state::play_phase::player_after(s, landlords_team@, old(self).players_spec()[i]),
            r@.len() > 0,
            r@.drop_last() == crate::game_state::play_phase::messages_upto(s, landlords_team@, old(self).players_spec(), old(self).players_spec().len() as int),
            r@.last() matches MessageVariant::GameFinished { result } && result@ == Seq::new(
                old(self).players_spec().len(),
                |i: int| (old(self).players_spec()[i].name, crate::game_state::play_phase::player_result(s, landlords_team@, old(self).players_spec()[i])),
            ),
            final(self).observers_spec() == old(self).observers_spec(),
            final(self).landlord_spec() == old(self).landlord_spec(),
            final(self).next_id() == old(self).next_id(),
            final(self).same_rules(*old(self)),
    {
        crate::game_state::play_phase::compute_player_level_deltas(&mut self.players, landlords_team, s)
    }

    pub fn game_scoring_parameters(&self) -> (r: &GameScoringParameters)
        ensures
            *r == self.scoring_parameters(),
    {
        &self.game_scoring_parameters
    }

    /// The state with one more finished game counted.
    pub closed spec fn counted(self) -> PropagatedState {
        PropagatedState { num_games_finished: (self.num_games_finished + 1) as usize, ..self }
    }

    /// Rules kept through two changes are kept through both.
    pub proof fn lemma_same_rules_trans(self, mid: Self, last: Self)
        requires
            mid.same_rules(self),
            last.same_rules(mid),
        ensures
            last.same_rules(self),
    {
    }

    /// Counting a game keeps the rules that two states share, and what the
    /// players can be recounted with.
    pub proof fn lemma_counted_rules(self, other: Self, n: int)
        requires
            other.same_rules(self),
        ensures
            other.counted().same_rules(self.counted()),
            other.counted().can_recount(n) == self.can_recount(n),
            other.counted().players_spec() == other.players_spec(),
            other.counted().observers_spec() == other.observers_spec(),
            other.counted().landlord_spec() == other.landlord_spec(),
            other.counted().next_id() == other.next_id(),
            other.games_finished() == self.games_finished(),
            self.games_finished() < usize::MAX ==> other.counted().games_finished() == self.games_finished() + 1,
    {
    }

    /// Counts one more finished game.
    pub fn count_finished_game(&mut self)
        requires
            old(self).games_finished() < usize::MAX,
        ensures
            *final(self) == old(self).counted(),
            final(self).games_finished() == old(self).games_finished() + 1,
            final(self).players_spec() == old(self).players_spec(),
            final(self).observers_spec() == old(self).observers_spec(),
            final(self).landlord_spec() == old(self).landlord_spec(),
            final(self).next_id() == old(self).next_id(),
            final(self).num_decks_setting() == old(self).num_decks_setting(),
            final(self).scoring_parameters() == old(self).scoring_parameters(),
    {
        self.num_games_finished = self.num_games_finished + 1;
    }
}

} // verus!
