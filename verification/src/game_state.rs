//! The phases of a game: setting up, drawing cards while bidding for trump,
//! exchanging cards with the kitty, and playing the tricks.

pub mod draw_phase;
pub mod exchange_phase;
pub mod initialize_phase;
pub mod play_phase;

pub use draw_phase::DrawPhase;
pub use exchange_phase::ExchangePhase;
pub use initialize_phase::InitializePhase;
pub use play_phase::PlayPhase;


use vstd::prelude::*;

use crate::bidding::BidError;
use crate::game_state::initialize_phase::resets;
use crate::hands::HandError;
use crate::message::MessageVariant;
use crate::player::Player;
use crate::settings::{first_with_id, id_in, name_in, PropagatedState};
use crate::types::PlayerID;
use crate::scoring::ScoringError;
use crate::settings::SettingsError;
use crate::trick::TrickError;

verus! {

/// Why an action in a phase of the game was refused.
#[derive(Debug, Copy, Clone, PartialEq, Eq, Structural)]
#[allow(inconsistent_fields)]
pub enum GameError {
    NotYourTurn,
    NoCardsLeft,
    DeckNotEmpty,
    /// Only the landlord may do this.
    NotLandlord,
    PlayerNotFound,
    UnknownCardBid,
    /// The landlord's level is no-trump, which leaves no trump number.
    NoTrumpLevel,
    NotExchanger,
    AlreadyFinalized,
    CardNotInKitty,
    NotFindingFriends,
    WrongNumberOfFriends,
    FriendIsTrump,
    FriendIsTrumpSuit,
    FriendCardMissing,
    FriendIsHighestCard,
    WrongKittySize,
    StillExchanging,
    AutomaticBid,
    NoBidSinceExchange,
    NotBidWinner,
    NotEnoughPlayers,
    OnlyLandlordStarts,
    OddPlayersForTractor,
    /// No deck holds the cards of the level that a player would bid with.
    MissingBidCards,
    /// A card that had to go to make the kitty size work out is not in the
    /// deck.
    CardToRemoveMissing,
    /// The game ended early; nothing more can be played.
    GameAlreadyEnded,
    PlayTakebackNotAllowed,
    /// The game is not over yet.
    GameNotFinished,
    /// The game has not started, so there is nothing to reset.
    GameNotStarted,
    /// The action is not one that the current phase takes.
    WrongPhase,
    /// A bid that is not allowed.
    InvalidBid,
    /// A card of the kitty is revealed only before anyone bids.
    AlreadyBid,
    /// A card of the kitty is revealed only once a landlord is chosen.
    NoLandlord,
    /// Every card of the kitty that may be revealed has been, or a bid was
    /// already made from the kitty.
    NothingToReveal,
    Trick { source: TrickError },
    Scoring { source: ScoringError },
    Bid { source: BidError },
    Hand { source: HandError },
    Settings { source: SettingsError },
}


/// A game, in one of its phases.
#[derive(Debug)]
pub enum GameState {
    Initialize(InitializePhase),
    Draw(DrawPhase),
    Exchange(ExchangePhase),
    Play(PlayPhase),
}

/// Whether two games are in the same phase.
pub open spec fn same_phase(a: GameState, b: GameState) -> bool {
    ||| a is Initialize && b is Initialize
    ||| a is Draw && b is Draw
    ||| a is Exchange && b is Exchange
    ||| a is Play && b is Play
}

/// A result of the game that matches what the settings came to, their
/// errors wrapped.
pub open spec fn game_outcome_matches(r: Result<Vec<MessageVariant>, GameError>, expected: Result<Seq<MessageVariant>, SettingsError>) -> bool {
    match (r, expected) {
        (Ok(v), Ok(m)) => crate::message::same_messages(v@, m),
        (Err(e1), Err(e2)) => e1 == GameError::Settings { source: e2 },
        _ => false,
    }
}

/// What removing `id` from the game `s` comes to: while setting up, the
/// player leaves (see `PropagatedState::remove_player`); later, the
/// observer with that id leaves, with no messages.
pub open spec fn kicked(s: GameState, id: PlayerID, after: GameState, r: Result<Vec<MessageVariant>, GameError>) -> bool {
    match s {
        GameState::Initialize(p) => after matches GameState::Initialize(q) && {
            let ps = p.propagated_spec();
            if !id_in(ps.players_spec(), id) {
                r == Err::<Vec<MessageVariant>, GameError>(GameError::Settings { source: SettingsError::PlayerNotFound })
                    && q.propagated_spec() == ps
            } else {
                let o = ps.roster_outcome(
                    crate::settings::without_id(ps.players_spec(), id),
                    ps.observers_spec(),
                    if ps.landlord_spec() == Some(id) { None } else { ps.landlord_spec() },
                    ps.next_id(),
                );
                let left = MessageVariant::LeftGame { name: first_with_id(ps.players_spec(), id).name };
                &&& q.propagated_spec().same_state(o.0)
                &&& game_outcome_matches(r, match o.1 {
                    Ok(m) => Ok(seq![left] + m),
                    Err(e) => Err(e),
                })
            }
        },
        _ => {
            &&& r matches Ok(msgs) && msgs@.len() == 0
            &&& same_phase(s, after)
            &&& after.propagated_spec().observers_spec() == crate::settings::without_id(s.propagated_spec().observers_spec(), id)
            &&& after.propagated_spec().players_spec() == s.propagated_spec().players_spec()
        },
    }
}

/// Whether the player named `name` first appears in `ps` at `k`.
pub open spec fn is_first_named(ps: Seq<Player>, name: Seq<char>, k: int) -> bool {
    &&& 0 <= k < ps.len()
    &&& ps[k].name@ == name
    &&& forall|j: int| 0 <= j < k ==> ps[j].name@ != name
}

/// The id of the first player named `name` in `ps`, if any.
pub open spec fn id_named(ps: Seq<Player>, name: Seq<char>) -> Option<PlayerID> {
    if name_in(ps, name) {
        Some(ps[choose|k: int| is_first_named(ps, name, k)].id)
    } else {
        None
    }
}

/// The position of the first player named `name`.
fn find_named(ps: &[Player], name: &String) -> (r: Option<usize>)
    ensures
        r matches Some(k) ==> is_first_named(ps@, name@, k as int),
        r is None ==> !name_in(ps@, name@),
{
    let mut i: usize = 0;
    while i < ps.len()
        invariant
            i <= ps.len(),
            forall|j: int| 0 <= j < i ==> ps@[j].name@ != name@,
        decreases ps.len() - i,
    {
        if ps[i].name == *name {
            return Some(i);
        }
        i += 1;
    }
    None
}

/// The position of the first player with the given id.
fn find_id(ps: &[Player], id: PlayerID) -> (r: Option<usize>)
    ensures
        r matches Some(k) ==> k < ps@.len() && ps@[k as int] == first_with_id(ps@, id) && ps@[k as int].id == id,
        r is None ==> !id_in(ps@, id),
{
    let mut i: usize = 0;
    assert(ps@.subrange(0, ps@.len() as int) =~= ps@);
    while i < ps.len()
        invariant
            i <= ps.len(),
            forall|j: int| 0 <= j < i ==> ps@[j].id != id,
            first_with_id(ps@, id) == first_with_id(ps@.subrange(i as int, ps@.len() as int), id),
        decreases ps.len() - i,
    {
        proof {
            assert(ps@.subrange(i as int, ps@.len() as int).drop_first() =~= ps@.subrange(i + 1, ps@.len() as int));
        }
        if ps[i].id == id {
            proof {
                assert(ps@.subrange(i as int, ps@.len() as int)[0] == ps@[i as int]);
            }
            return Some(i);
        }
        i += 1;
    }
    None
}

proof fn lemma_first_named_unique(ps: Seq<Player>, name: Seq<char>, a: int, b: int)
    requires
        is_first_named(ps, name, a),
        is_first_named(ps, name, b),
    ensures
        a == b,
{
    if a < b {
        assert(ps[a].name@ == name);
    } else if b < a {
        assert(ps[b].name@ == name);
    }
}

impl GameState {
    /// The settings and players of the game, whatever its phase.
    pub open spec fn propagated_spec(self) -> PropagatedState {
        match self {
            GameState::Initialize(p) => p.propagated_spec(),
            GameState::Draw(p) => p.propagated_spec(),
            GameState::Exchange(p) => p.propagated_spec(),
            GameState::Play(p) => p.propagated_spec(),
        }
    }

    pub fn propagated(&self) -> (r: &PropagatedState)
        ensures
            *r == self.propagated_spec(),
    {
        match self {
            GameState::Initialize(p) => p.propagated(),
            GameState::Draw(p) => p.propagated(),
            GameState::Exchange(p) => p.propagated(),
            GameState::Play(p) => p.propagated(),
        }
    }

    /// Whose turn it is, in the phases that have turns.
    pub fn next_player(&self) -> (r: Result<PlayerID, GameError>)
        requires
            self matches GameState::Draw(p) ==> (p.deck_spec().len() > 0 ==> p.position_spec() < p.propagated_spec().players_spec().len()),
        ensures
            self is Initialize ==> r == Err::<PlayerID, GameError>(GameError::WrongPhase),
            self matches GameState::Exchange(p) ==> r == Ok::<PlayerID, GameError>(if p.propagated_spec().kitty_theft_policy_setting()
                == crate::settings::KittyTheftPolicy::AllowKittyTheft && p.autobid_spec() is None && !p.finalized_spec() {
                p.exchanger_spec()
            } else {
                p.landlord_spec()
            }),
    {
        match self {
            GameState::Initialize(_) => Err(GameError::WrongPhase),
            GameState::Draw(p) => p.next_player(),
            GameState::Exchange(p) => p.next_player(),
            GameState::Play(p) => p.next_player(),
        }
    }

    /// Whether a player (not an observer) has the given id.
    pub fn is_player(&self, id: PlayerID) -> (r: bool)
        ensures
            r == id_in(self.propagated_spec().players_spec(), id),
    {
        find_id(self.propagated().players(), id).is_some()
    }

    /// The name of the first player, else the first observer, with the
    /// given id.
    pub fn player_name(&self, id: PlayerID) -> (r: Result<&str, GameError>)
        ensures
            id_in(self.propagated_spec().players_spec(), id) ==> (r matches Ok(n) && n@ == first_with_id(self.propagated_spec().players_spec(), id).name@),
            !id_in(self.propagated_spec().players_spec(), id) && id_in(self.propagated_spec().observers_spec(), id)
                ==> (r matches Ok(n) && n@ == first_with_id(self.propagated_spec().observers_spec(), id).name@),
            !id_in(self.propagated_spec().players_spec(), id) && !id_in(self.propagated_spec().observers_spec(), id)
                ==> r == Err::<&str, GameError>(GameError::PlayerNotFound),
    {
        let p = self.propagated();
        match find_id(p.players(), id) {
            Some(k) => {
                return Ok(p.players()[k].name.as_str());
            },
            None => {},
        }
        match find_id(p.observers(), id) {
            Some(k) => Ok(p.observers()[k].name.as_str()),
            None => Err(GameError::PlayerNotFound),
        }
    }

    /// The id of the first player, else the first observer, with the given
    /// name.
    pub fn player_id(&self, name: &String) -> (r: Result<PlayerID, GameError>)
        ensures
            r == (match id_named(self.propagated_spec().players_spec(), name@) {
                Some(id) => Ok::<PlayerID, GameError>(id),
                None => match id_named(self.propagated_spec().observers_spec(), name@) {
                    Some(id) => Ok(id),
                    None => Err(GameError::PlayerNotFound),
                },
            }),
    {
        let p = self.propagated();
        match find_named(p.players(), name) {
            Some(k) => {
                proof {
                    let c = choose|c: int| is_first_named(p.players_spec(), name@, c);
                    lemma_first_named_unique(p.players_spec(), name@, c, k as int);
                }
                return Ok(p.players()[k].id);
            },
            None => {},
        }
        match find_named(p.observers(), name) {
            Some(k) => {
                proof {
                    let c = choose|c: int| is_first_named(p.observers_spec(), name@, c);
                    lemma_first_named_unique(p.observers_spec(), name@, c, k as int);
                }
                Ok(p.observers()[k].id)
            },
            None => Err(GameError::PlayerNotFound),
        }
    }

    /// Goes back to setting up (see `resets`); a game that has not started
    /// has nothing to reset.
    pub fn reset(&mut self) -> (r: Result<Vec<MessageVariant>, GameError>)
        requires
            old(self).propagated_spec().can_recount(
                (old(self).propagated_spec().players_spec().len() + old(self).propagated_spec().observers_spec().len()) as int,
            ),
        ensures
            *old(self) is Initialize ==> r == Err::<Vec<MessageVariant>, GameError>(GameError::GameNotStarted) && *final(self) == *old(self),
            !(*old(self) is Initialize) ==> match r {
                Ok(msgs) => *final(self) matches GameState::Initialize(init) && resets(old(self).propagated_spec(), Ok((init, msgs))),
                Err(e) => *final(self) == *old(self) && resets(old(self).propagated_spec(), Err(e)),
            },
    {
        let res = match self {
            GameState::Initialize(_) => {
                return Err(GameError::GameNotStarted);
            },
            GameState::Draw(p) => p.return_to_initialize(),
            GameState::Exchange(p) => p.return_to_initialize(),
            GameState::Play(p) => p.return_to_initialize(),
        };
        match res {
            Ok((init, msgs)) => {
                *self = GameState::Initialize(init);
                Ok(msgs)
            },
            Err(e) => Err(e),
        }
    }
}


impl GameState {
    /// The id that a name already has in the game, as a player or else as
    /// an observer.
    pub open spec fn known_id(self, name: Seq<char>) -> Option<PlayerID> {
        match id_named(self.propagated_spec().players_spec(), name) {
            Some(id) => Some(id),
            None => id_named(self.propagated_spec().observers_spec(), name),
        }
    }

    /// Joins the game: a name already known joins again under its id;
    /// otherwise a new player while setting up, else a new observer.
    pub fn register(&mut self, name: String) -> (r: Result<(PlayerID, Vec<MessageVariant>), GameError>)
        requires
            old(self).propagated_spec().next_id() < usize::MAX,
            *old(self) is Initialize ==> old(self).propagated_spec().can_recount(old(self).propagated_spec().players_spec().len() + 1int),
        ensures
            old(self).known_id(name@) matches Some(pid) ==> *final(self) == *old(self) && (r matches Ok((id, msgs)) && id == pid
                && msgs@ == seq![MessageVariant::JoinedGameAgain {
                    player: pid,
                    game_shadowing_policy: old(self).propagated_spec().game_shadowing_policy_setting(),
                }]),
            old(self).known_id(name@) is None && !(*old(self) is Initialize) ==> {
                let id = PlayerID(old(self).propagated_spec().next_id());
                &&& r matches Ok((rid, msgs)) && rid == id && msgs@.len() == 0
                &&& final(self).propagated_spec().observers_spec() == old(self).propagated_spec().observers_spec().push(
                    crate::settings::new_player(id, name))
                &&& final(self).propagated_spec().players_spec() == old(self).propagated_spec().players_spec()
            },
            old(self).known_id(name@) is None && *old(self) is Initialize ==> *final(self) is Initialize
                && (r matches Ok((rid, msgs)) ==> rid == PlayerID(old(self).propagated_spec().next_id())),
    {
        match self.player_id(&name) {
            Ok(pid) => {
                let mut msgs: Vec<MessageVariant> = Vec::new();
                msgs.push(MessageVariant::JoinedGameAgain { player: pid, game_shadowing_policy: self.propagated().game_shadowing_policy() });
                return Ok((pid, msgs));
            },
            Err(_) => {},
        }
        proof {
            if name_in(self.propagated_spec().players_spec(), name@) {
                let k = choose|k: int| 0 <= k < self.propagated_spec().players_spec().len() && (#[trigger] self.propagated_spec().players_spec()[k]).name@ == name@;
                assert(self.propagated_spec().players_spec()[k].name@ == name@);
            }
        }
        match self {
            GameState::Initialize(p) => {
                match p.propagated_mut().add_player(name) {
                    Ok(x) => Ok(x),
                    Err(e) => Err(GameError::Settings { source: e }),
                }
            },
            GameState::Draw(p) => match p.add_observer(name) {
                Ok(id) => Ok((id, Vec::new())),
                Err(e) => Err(e),
            },
            GameState::Exchange(p) => match p.add_observer(name) {
                Ok(id) => Ok((id, Vec::new())),
                Err(e) => Err(e),
            },
            GameState::Play(p) => match p.add_observer(name) {
                Ok(id) => Ok((id, Vec::new())),
                Err(e) => Err(e),
            },
        }
    }

    /// Removes someone from the game: a player while setting up (see
    /// `remove_player`), else an observer.
    pub fn kick(&mut self, id: PlayerID) -> (r: Result<Vec<MessageVariant>, GameError>)
        requires
            *old(self) is Initialize ==> old(self).propagated_spec().can_recount(crate::settings::without_id(old(self).propagated_spec().players_spec(), id).len() as int),
        ensures
            kicked(*old(self), id, *final(self), r),
    {
        match self {
            GameState::Initialize(p) => match p.propagated_mut().remove_player(id) {
                Ok(m) => Ok(m),
                Err(e) => Err(GameError::Settings { source: e }),
            },
            GameState::Draw(p) => match p.remove_observer(id) {
                Ok(()) => Ok(Vec::new()),
                Err(e) => Err(e),
            },
            GameState::Exchange(p) => match p.remove_observer(id) {
                Ok(()) => Ok(Vec::new()),
                Err(e) => Err(e),
            },
            GameState::Play(p) => match p.remove_observer(id) {
                Ok(()) => Ok(Vec::new()),
                Err(e) => Err(e),
            },
        }
    }

    /// Sets the chat link of the room (see `PropagatedState::set_chat_link`).
    pub fn set_chat_link(&mut self, chat_link: Option<String>) -> (r: Result<(), GameError>)
        ensures
            r == match crate::settings::chat_link_error(chat_link) {
                Some(e) => Err::<(), GameError>(GameError::Settings { source: e }),
                None => Ok(()),
            },
            r is Ok ==> final(self).propagated_spec().chat_link_spec() == chat_link,
            r is Err ==> final(self).propagated_spec() == old(self).propagated_spec(),
            final(self).propagated_spec().players_spec() == old(self).propagated_spec().players_spec(),
            same_phase(*old(self), *final(self)),
    {
        let res = match self {
            GameState::Initialize(p) => p.propagated_mut().set_chat_link(chat_link),
            GameState::Draw(p) => p.propagated_mut().set_chat_link(chat_link),
            GameState::Exchange(p) => p.propagated_mut().set_chat_link(chat_link),
            GameState::Play(p) => p.propagated_mut().set_chat_link(chat_link),
        };
        match res {
            Ok(()) => Ok(()),
            Err(e) => Err(GameError::Settings { source: e }),
        }
    }
}


impl GameState {
    /// What redacting the game for a player needs: well-formed cards, hand
    /// sizes that fit a `usize`, and no more kitty cards revealed than the
    /// kitty holds.
    pub open spec fn redactable(self) -> bool {
        match self {
            GameState::Initialize(_) => true,
            GameState::Draw(p) => {
                &&& p.hands_spec().wf()
                &&& forall|x: PlayerID| p.hands_spec().has_player(x) ==> #[trigger] p.hands_spec().hand_size(x) <= usize::MAX
                &&& p.revealed_spec() <= p.kitty_spec().len()
            },
            GameState::Exchange(p) => {
                &&& p.hands_spec().wf()
                &&& forall|x: PlayerID| p.hands_spec().has_player(x) ==> #[trigger] p.hands_spec().hand_size(x) <= usize::MAX
            },
            GameState::Play(p) => {
                &&& p.wf()
                &&& forall|x: PlayerID| p.hands_spec().has_player(x) ==> #[trigger] p.hands_spec().hand_size(x) <= usize::MAX
            },
        }
    }

    /// The game as the player may see it: each phase hides what the player
    /// may not see (see the phases' `destructively_redact_for_player`).
    pub fn for_player(self, id: PlayerID) -> (r: GameState)
        requires
            self.redactable(),
        ensures
            same_phase(self, r),
            r.propagated_spec() == self.propagated_spec(),
            match self {
                GameState::Initialize(_) => r == self,
                GameState::Draw(p) => r matches GameState::Draw(q) && p.redacted_for(id, q),
                GameState::Exchange(p) => r matches GameState::Exchange(q) && p.redacted_for(id, q),
                GameState::Play(p) => r matches GameState::Play(q) && p.redacted_for(id, q),
            },
    {
        let mut s = self;
        match &mut s {
            GameState::Initialize(_) => {},
            GameState::Draw(p) => p.destructively_redact_for_player(id),
            GameState::Exchange(p) => p.destructively_redact_for_player(id),
            GameState::Play(p) => p.destructively_redact_for_player(id),
        }
        s
    }
}

} // verus!
