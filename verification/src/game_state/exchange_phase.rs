//! Exchanging cards: the landlord (or whoever overbid) swaps cards between
//! hand and kitty, and calls friends.

use vstd::prelude::*;

use crate::bidding::{valid_bid_set, Bid, BidError, JokerBidPolicy};
use crate::deck::Deck;
use crate::game_state::draw_phase::winning_bid;
use crate::game_state::GameError;
use crate::game_state::initialize_phase::{reset_game, resets};
use crate::message::MessageVariant;
use crate::hands::{HandError, Hands};
use crate::game_state::play_phase::{is_first_landlord_position, rotation, PlayPhase};
use crate::player::Player;
use crate::settings::{id_in, Friend, FriendSelection, FriendSelectionPolicy, GameMode, KittyTheftPolicy, PropagatedState};
use crate::types::{card_number, card_suit, occurrences, trump_number, trump_suit, Card, Number, PlayerID, Trump};

verus! {

#[derive(Debug)]
pub struct ExchangePhase {
    propagated: PropagatedState,
    num_decks: usize,
    game_mode: GameMode,
    hands: Hands,
    kitty: Vec<Card>,
    kitty_size: usize,
    landlord: PlayerID,
    trump: Trump,
    exchanger: PlayerID,
    finalized: bool,
    epoch: usize,
    bids: Vec<Bid>,
    autobid: Option<Bid>,
    removed_cards: Vec<Card>,
    decks: Vec<Deck>,
}

/// The selections without repeats, each kept where it first appears.
pub open spec fn distinct_selections(s: Seq<FriendSelection>) -> Seq<FriendSelection>
    decreases s.len(),
{
    if s.len() == 0 {
        Seq::empty()
    } else {
        let d = distinct_selections(s.drop_last());
        if d.contains(s.last()) { d } else { d.push(s.last()) }
    }
}

/// What is wrong with calling for a card as a friend, if anything: not a
/// joker or a card of the trump number, not of the trump suit, a copy that
/// exists, and under `HighestCardNotAllowed` not the highest card.
pub open spec fn friend_error(t: Trump, policy: FriendSelectionPolicy, num_decks: usize, f: FriendSelection) -> Option<GameError> {
    if crate::types::is_joker_spec(f.card) || card_number(f.card) == Some(trump_number(t)) {
        Some(GameError::FriendIsTrump)
    } else if trump_suit(t) is Some && card_suit(f.card) == trump_suit(t) {
        Some(GameError::FriendIsTrumpSuit)
    } else if f.initial_skip >= num_decks {
        Some(GameError::FriendCardMissing)
    } else if policy == FriendSelectionPolicy::HighestCardNotAllowed && (card_number(f.card) == Some(Number::Ace)
        || (trump_number(t) == Number::Ace && card_number(f.card) == Some(Number::King))) {
        Some(GameError::FriendIsHighestCard)
    } else {
        None
    }
}

/// The friend called for by a selection, not yet found.
pub open spec fn friend_of(f: FriendSelection) -> Friend {
    Friend { card: f.card, skip: f.initial_skip, initial_skip: f.initial_skip, player_id: None }
}

/// The first faulty selection among `s[i..]`, if any.
pub open spec fn first_friend_error(t: Trump, policy: FriendSelectionPolicy, num_decks: usize, s: Seq<FriendSelection>, i: int) -> Option<GameError>
    decreases s.len() - i,
{
    if i < 0 || i >= s.len() {
        None
    } else {
        match friend_error(t, policy, num_decks, s[i]) {
            Some(e) => Some(e),
            None => first_friend_error(t, policy, num_decks, s, i + 1),
        }
    }
}

impl ExchangePhase {
    pub closed spec fn propagated_spec(self) -> PropagatedState {
        self.propagated
    }

    pub closed spec fn hands_spec(self) -> Hands {
        self.hands
    }

    pub closed spec fn kitty_spec(self) -> Seq<Card> {
        self.kitty@
    }

    pub closed spec fn kitty_size_spec(self) -> usize {
        self.kitty_size
    }

    pub closed spec fn landlord_spec(self) -> PlayerID {
        self.landlord
    }

    pub closed spec fn trump_spec(self) -> Trump {
        self.trump
    }

    pub closed spec fn exchanger_spec(self) -> PlayerID {
        self.exchanger
    }

    pub closed spec fn finalized_spec(self) -> bool {
        self.finalized
    }

    pub closed spec fn epoch_spec(self) -> usize {
        self.epoch
    }

    pub closed spec fn bids_spec(self) -> Seq<Bid> {
        self.bids@
    }

    pub closed spec fn autobid_spec(self) -> Option<Bid> {
        self.autobid
    }

    pub closed spec fn num_decks_spec(self) -> usize {
        self.num_decks
    }

    pub closed spec fn game_mode_spec(self) -> GameMode {
        self.game_mode
    }

    /// Everything but the hands, the kitty, the friends, the bids and who
    /// exchanges.
    pub open spec fn same_setup(self, other: ExchangePhase) -> bool {
        &&& self.propagated_spec() == other.propagated_spec()
        &&& self.num_decks_spec() == other.num_decks_spec()
        &&& self.kitty_size_spec() == other.kitty_size_spec()
        &&& self.landlord_spec() == other.landlord_spec()
        &&& self.removed_cards_spec() == other.removed_cards_spec()
        &&& self.decks_spec() == other.decks_spec()
        &&& self.autobid_spec() == other.autobid_spec()
    }

    pub closed spec fn removed_cards_spec(self) -> Seq<Card> {
        self.removed_cards@
    }

    pub closed spec fn decks_spec(self) -> Seq<Deck> {
        self.decks@
    }

    /// The exchange starts with the landlord exchanging, nothing finalized,
    /// in the first round of bidding after the draw; the kitty's size is what
    /// it must stay.
    pub fn new(
        propagated: PropagatedState,
        num_decks: usize,
        game_mode: GameMode,
        kitty: Vec<Card>,
        landlord: PlayerID,
        hands: Hands,
        trump: Trump,
        bids: Vec<Bid>,
        autobid: Option<Bid>,
        removed_cards: Vec<Card>,
        decks: Vec<Deck>,
    ) -> (r: Self)
        ensures
            r.propagated_spec() == propagated,
            r.num_decks_spec() == num_decks,
            r.game_mode_spec() == game_mode,
            r.kitty_spec() == kitty@,
            r.kitty_size_spec() == kitty.len(),
            r.landlord_spec() == landlord,
            r.exchanger_spec() == landlord,
            r.hands_spec() == hands,
            r.trump_spec() == trump,
            r.bids_spec() == bids@,
            r.autobid_spec() == autobid,
            !r.finalized_spec(),
            r.epoch_spec() == 1,
    {
        ExchangePhase {
            kitty_size: kitty.len(),
            num_decks,
            game_mode,
            kitty,
            propagated,
            landlord,
            exchanger: landlord,
            hands,
            trump,
            bids,
            autobid,
            removed_cards,
            decks,
            finalized: false,
            epoch: 1,
        }
    }

    pub fn add_observer(&mut self, name: String) -> (r: Result<PlayerID, GameError>)
        requires
            old(self).propagated_spec().next_id() < usize::MAX,
        ensures
            r is Err ==> *final(self) == *old(self),
            r is Err <==> crate::settings::name_in(old(self).propagated_spec().players_spec(), name@)
                || crate::settings::name_in(old(self).propagated_spec().observers_spec(), name@),
            r matches Ok(id) ==> id == PlayerID(old(self).propagated_spec().next_id())
                && final(self).propagated_spec().observers_spec() == old(self).propagated_spec().observers_spec().push(
                crate::settings::new_player(id, name)),
            final(self).propagated_spec().players_spec() == old(self).propagated_spec().players_spec(),
    {
        match self.propagated.add_observer(name) {
            Ok(id) => Ok(id),
            Err(e) => Err(GameError::Settings { source: e }),
        }
    }

    pub fn remove_observer(&mut self, id: PlayerID) -> (r: Result<(), GameError>)
        ensures
            r is Ok,
            final(self).propagated_spec().observers_spec() == crate::settings::without_id(old(self).propagated_spec().observers_spec(), id),
            final(self).propagated_spec().players_spec() == old(self).propagated_spec().players_spec(),
    {
        match self.propagated.remove_observer(id) {
            Ok(()) => Ok(()),
            Err(e) => Err(GameError::Settings { source: e }),
        }
    }

    /// The exchanger puts a card from their hand into the kitty.
    pub fn move_card_to_kitty(&mut self, id: PlayerID, card: Card) -> (r: Result<(), GameError>)
        requires
            old(self).hands_spec().wf(),
        ensures
            final(self).hands_spec().wf(),
            old(self).exchanger_spec() != id ==> r == Err::<(), GameError>(GameError::NotExchanger),
            old(self).exchanger_spec() == id && old(self).finalized_spec() ==> r == Err::<(), GameError>(GameError::AlreadyFinalized),
            old(self).exchanger_spec() == id && !old(self).finalized_spec() ==> {
                &&& !old(self).hands_spec().has_player(id) ==> r == Err::<(), GameError>(GameError::Hand { source: HandError::NotAPlayer })
                &&& old(self).hands_spec().has_player(id) && old(self).hands_spec().count(id, card) == 0
                    ==> r == Err::<(), GameError>(GameError::Hand { source: HandError::NotEnoughCards })
                &&& (r is Ok <==> old(self).hands_spec().has_player(id) && old(self).hands_spec().count(id, card) > 0)
            },
            r is Err ==> *final(self) == *old(self),
            r is Ok ==> {
                &&& final(self).kitty_spec() == old(self).kitty_spec().push(card)
                &&& forall|x: PlayerID, c: Card| #[trigger] final(self).hands_spec().count(x, c) + (if x == id && c == card { 1int } else { 0int })
                    == old(self).hands_spec().count(x, c)
                &&& final(self).same_setup(*old(self))
                &&& final(self).exchanger_spec() == old(self).exchanger_spec()
                &&& final(self).finalized_spec() == old(self).finalized_spec()
            },
    {
        if self.exchanger != id {
            return Err(GameError::NotExchanger);
        }
        if self.finalized {
            return Err(GameError::AlreadyFinalized);
        }
        let mut one: Vec<Card> = Vec::new();
        one.push(card);
        proof {
            lemma_single(card);
            assert(one@ =~= seq![card]);
        }
        match self.hands.remove(self.exchanger, one) {
            Ok(()) => {},
            Err(e) => {
                return Err(GameError::Hand { source: e });
            },
        }
        self.kitty.push(card);
        Ok(())
    }

    /// The exchanger takes a card from the kitty into their hand.
    pub fn move_card_to_hand(&mut self, id: PlayerID, card: Card) -> (r: Result<(), GameError>)
        requires
            old(self).hands_spec().wf(),
            old(self).hands_spec().count(old(self).exchanger_spec(), card) < usize::MAX,
        ensures
            final(self).hands_spec().wf(),
            old(self).exchanger_spec() != id ==> r == Err::<(), GameError>(GameError::NotExchanger),
            old(self).exchanger_spec() == id && old(self).finalized_spec() ==> r == Err::<(), GameError>(GameError::AlreadyFinalized),
            old(self).exchanger_spec() == id && !old(self).finalized_spec() && !old(self).kitty_spec().contains(card)
                ==> r == Err::<(), GameError>(GameError::CardNotInKitty),
            old(self).exchanger_spec() == id && !old(self).finalized_spec() && old(self).kitty_spec().contains(card) ==> {
                &&& occurrences(final(self).kitty_spec(), card) + 1 == occurrences(old(self).kitty_spec(), card)
                &&& forall|c: Card| c != card ==> occurrences(final(self).kitty_spec(), c) == occurrences(old(self).kitty_spec(), c)
                &&& (r is Ok <==> old(self).hands_spec().has_player(id))
                &&& r is Err ==> r == Err::<(), GameError>(GameError::Hand { source: HandError::NotAPlayer })
                &&& forall|x: PlayerID, c: Card| #[trigger] final(self).hands_spec().count(x, c) == old(self).hands_spec().count(x, c)
                    + (if r is Ok && x == id && c == card { 1int } else { 0int })
            },
            (old(self).exchanger_spec() != id || old(self).finalized_spec() || !old(self).kitty_spec().contains(card))
                ==> *final(self) == *old(self),
            final(self).same_setup(*old(self)),
    {
        broadcast use vstd::seq_lib::group_to_multiset_ensures, vstd::multiset::group_multiset_axioms;
        if self.exchanger != id {
            return Err(GameError::NotExchanger);
        }
        if self.finalized {
            return Err(GameError::AlreadyFinalized);
        }
        let mut index: usize = 0;
        while index < self.kitty.len() && self.kitty[index] != card
            invariant
                index <= self.kitty.len(),
                forall|q: int| 0 <= q < index ==> self.kitty@[q] != card,
            decreases self.kitty.len() - index,
        {
            index += 1;
        }
        if index == self.kitty.len() {
            proof {
                if self.kitty@.contains(card) {
                    let q = choose|q: int| 0 <= q < self.kitty@.len() && self.kitty@[q] == card;
                    assert(false);
                }
            }
            return Err(GameError::CardNotInKitty);
        }
        let ghost before = self.kitty@;
        self.kitty.swap_remove(index);
        proof {
            let k = before.update(index as int, before.last());
            let kd = k.drop_last();
            assert(self.kitty@ =~= kd);
            vstd::seq_lib::to_multiset_update(before, index as int, before.last());
            assert(k =~= kd.push(k.last()));
            assert(k.last() == before.last());
            assert(k.to_multiset() == kd.to_multiset().insert(before.last()));
            assert(before[index as int] == card);
            assert(before.to_multiset().count(card) > 0);
            assert forall|c: Card| #[trigger] occurrences(kd, c) == occurrences(before, c) - (if c == card { 1int } else { 0int }) by {
                assert(k.to_multiset().count(c) == kd.to_multiset().count(c) + (if c == before.last() { 1int } else { 0int }));
                assert(k.to_multiset().count(c) == before.to_multiset().insert(before.last()).remove(card).count(c));
            }
        }
        let mut one: Vec<Card> = Vec::new();
        one.push(card);
        proof {
            lemma_single(card);
            assert(one@ =~= seq![card]);
            assert forall|c: Card| self.hands.count(self.exchanger, c) + occurrences(one@, c) <= usize::MAX by {
                self.hands.lemma_count_bound(self.exchanger, c);
            }
        }
        match self.hands.add(self.exchanger, one) {
            Ok(()) => Ok(()),
            Err(e) => Err(GameError::Hand { source: e }),
        }
    }

    /// The number of friends the landlord calls for.
    pub fn num_friends(&self) -> (r: usize)
        ensures
            r == (match self.game_mode_spec() {
                GameMode::FindingFriends { num_friends, .. } => num_friends,
                GameMode::Tractor => 0,
            }),
    {
        match &self.game_mode {
            GameMode::FindingFriends { num_friends, .. } => *num_friends,
            GameMode::Tractor => 0,
        }
    }

    /// The exchanger is done exchanging, once the kitty has its size again.
    pub fn finalize(&mut self, id: PlayerID) -> (r: Result<(), GameError>)
        ensures
            id != old(self).exchanger_spec() ==> r == Err::<(), GameError>(GameError::NotExchanger),
            id == old(self).exchanger_spec() && old(self).finalized_spec() ==> r == Err::<(), GameError>(GameError::AlreadyFinalized),
            id == old(self).exchanger_spec() && !old(self).finalized_spec() && old(self).kitty_spec().len() != old(self).kitty_size_spec()
                ==> r == Err::<(), GameError>(GameError::WrongKittySize),
            r is Ok <==> id == old(self).exchanger_spec() && !old(self).finalized_spec() && old(self).kitty_spec().len() == old(self).kitty_size_spec(),
            r is Err ==> *final(self) == *old(self),
            r is Ok ==> final(self).finalized_spec() && final(self).same_setup(*old(self)) && final(self).kitty_spec() == old(self).kitty_spec()
                && final(self).hands_spec() == old(self).hands_spec() && final(self).exchanger_spec() == old(self).exchanger_spec()
                && final(self).epoch_spec() == old(self).epoch_spec() && final(self).bids_spec() == old(self).bids_spec()
                && final(self).trump_spec() == old(self).trump_spec() && final(self).game_mode_spec() == old(self).game_mode_spec(),
    {
        if id != self.exchanger {
            return Err(GameError::NotExchanger);
        }
        if self.finalized {
            return Err(GameError::AlreadyFinalized);
        }
        if self.kitty.len() != self.kitty_size {
            return Err(GameError::WrongKittySize);
        }
        self.finalized = true;
        Ok(())
    }

    /// After the exchanger finalized, the winner of a new bid in this round
    /// takes over the exchange, with trump changed to the bid's suit.
    pub fn pick_up_cards(&mut self, id: PlayerID) -> (r: Result<(), GameError>)
        requires
            old(self).epoch_spec() < usize::MAX,
        ensures
            !old(self).finalized_spec() ==> r == Err::<(), GameError>(GameError::StillExchanging),
            old(self).finalized_spec() && old(self).autobid_spec() is Some ==> r == Err::<(), GameError>(GameError::AutomaticBid),
            old(self).finalized_spec() && old(self).autobid_spec() is None
                && !(old(self).bids_spec().len() > 0 && old(self).bids_spec().last().epoch == old(self).epoch_spec())
                ==> r == Err::<(), GameError>(GameError::NoBidSinceExchange),
            ({
                let w = winning_bid(old(self).bids_spec(), old(self).autobid_spec());
                old(self).finalized_spec() && old(self).autobid_spec() is None && old(self).bids_spec().len() > 0
                    && old(self).bids_spec().last().epoch == old(self).epoch_spec() ==> {
                    &&& id != w.id ==> r == Err::<(), GameError>(GameError::NotBidWinner)
                    &&& id == w.id && w.card == Card::Unknown ==> r == Err::<(), GameError>(GameError::UnknownCardBid)
                    &&& (r is Ok <==> id == w.id && w.card != Card::Unknown)
                    &&& r is Ok ==> {
                        &&& final(self).trump_spec() == (match w.card {
                            Card::Suited { suit, .. } => Trump::Standard { suit, number: trump_number(old(self).trump_spec()) },
                            _ => Trump::NoTrump { number: trump_number(old(self).trump_spec()) },
                        })
                        &&& !final(self).finalized_spec()
                        &&& final(self).epoch_spec() == old(self).epoch_spec() + 1
                        &&& final(self).exchanger_spec() == w.id
                    }
                }
            }),
            r is Err ==> *final(self) == *old(self),
            final(self).same_setup(*old(self)),
            final(self).hands_spec() == old(self).hands_spec(),
            final(self).kitty_spec() == old(self).kitty_spec(),
            final(self).bids_spec() == old(self).bids_spec(),
    {
        if !self.finalized {
            return Err(GameError::StillExchanging);
        }
        if self.autobid.is_some() {
            return Err(GameError::AutomaticBid);
        }
        let n = self.bids.len();
        if n == 0 || self.bids[n - 1].epoch != self.epoch {
            return Err(GameError::NoBidSinceExchange);
        }
        let (_, winner) = match Bid::first_and_winner(self.bids.as_slice(), self.autobid) {
            Ok(x) => x,
            Err(e) => {
                return Err(GameError::Bid { source: e });
            },
        };
        if id != winner.id {
            return Err(GameError::NotBidWinner);
        }
        let number = self.trump.number();
        let trump = match winner.card {
            Card::Unknown => {
                return Err(GameError::UnknownCardBid);
            },
            Card::SmallJoker | Card::BigJoker => Trump::NoTrump { number },
            Card::Suited { suit, .. } => Trump::Standard { suit, number },
        };
        self.trump = trump;
        self.finalized = false;
        self.epoch += 1;
        self.exchanger = winner.id;
        Ok(())
    }

    /// Makes a bid once the exchanger finalized, unless the bid was made
    /// automatically. Returns whether the bid was made.
    pub fn bid(&mut self, id: PlayerID, card: Card, count: usize) -> (r: bool)
        requires
            old(self).hands_spec().wf(),
            old(self).propagated_spec().joker_bid_policy_setting() == JokerBidPolicy::LJNumDecksHJNumDecksLessOne
                && old(self).hands_spec().count(id, Card::BigJoker) > 0
                ==> old(self).num_decks_spec() >= 1,
        ensures
            r == (old(self).finalized_spec() && old(self).autobid_spec() is None && valid_bid_set(
                id,
                old(self).bids_spec(),
                old(self).hands_spec(),
                old(self).propagated_spec().players_spec(),
                old(self).propagated_spec().landlord_spec(),
                old(self).epoch_spec(),
                old(self).propagated_spec().bid_policy_setting(),
                old(self).propagated_spec().bid_reinforcement_policy_setting(),
                old(self).propagated_spec().joker_bid_policy_setting(),
                old(self).num_decks_spec(),
            ).contains(Bid { id, card, count, epoch: old(self).epoch_spec() })),
            final(self).bids_spec() == (if r {
                old(self).bids_spec().push(Bid { id, card, count, epoch: old(self).epoch_spec() })
            } else {
                old(self).bids_spec()
            }),
            final(self).same_setup(*old(self)),
            final(self).hands_spec() == old(self).hands_spec(),
            final(self).kitty_spec() == old(self).kitty_spec(),
            final(self).epoch_spec() == old(self).epoch_spec(),
            final(self).finalized_spec() == old(self).finalized_spec(),
    {
        if !self.finalized || self.autobid.is_some() {
            return false;
        }
        let players = self.propagated.players();
        Bid::bid(
            id,
            card,
            count,
            &mut self.bids,
            self.autobid,
            &self.hands,
            players,
            self.propagated.landlord(),
            self.propagated.bid_policy(),
            self.propagated.bid_reinforcement_policy(),
            self.propagated.joker_bid_policy(),
            self.num_decks,
            self.epoch,
        )
    }

    /// Takes back the player's bid of this round, once the exchanger
    /// finalized and if the bid was not automatic.
    pub fn take_back_bid(&mut self, id: PlayerID) -> (r: Result<(), GameError>)
        ensures
            !old(self).finalized_spec() ==> r == Err::<(), GameError>(GameError::StillExchanging),
            old(self).finalized_spec() && old(self).autobid_spec() is Some ==> r == Err::<(), GameError>(GameError::AutomaticBid),
            old(self).finalized_spec() && old(self).autobid_spec() is None ==> r == (match crate::bidding::take_back_outcome(
                id,
                old(self).propagated_spec().bid_takeback_policy_setting(),
                old(self).bids_spec(),
                old(self).epoch_spec(),
            ) {
                Ok(()) => Ok::<(), GameError>(()),
                Err(e) => Err(GameError::Bid { source: e }),
            }),
            final(self).bids_spec() == (if r is Ok { old(self).bids_spec().drop_last() } else { old(self).bids_spec() }),
            final(self).same_setup(*old(self)),
            final(self).hands_spec() == old(self).hands_spec(),
            final(self).kitty_spec() == old(self).kitty_spec(),
            final(self).epoch_spec() == old(self).epoch_spec(),
    {
        if !self.finalized {
            return Err(GameError::StillExchanging);
        }
        if self.autobid.is_some() {
            return Err(GameError::AutomaticBid);
        }
        match Bid::take_back_bid(id, self.propagated.bid_takeback_policy(), &mut self.bids, self.epoch) {
            Ok(()) => Ok(()),
            Err(e) => Err(GameError::Bid { source: e }),
        }
    }

    pub fn landlord(&self) -> (r: PlayerID)
        ensures
            r == self.landlord_spec(),
    {
        self.landlord
    }

    pub fn hands(&self) -> (r: &Hands)
        ensures
            *r == self.hands_spec(),
    {
        &self.hands
    }

    pub fn trump(&self) -> (r: Trump)
        ensures
            r == self.trump_spec(),
    {
        self.trump
    }

    pub fn propagated(&self) -> (r: &PropagatedState)
        ensures
            *r == self.propagated_spec(),
    {
        &self.propagated
    }

    pub fn propagated_mut(&mut self) -> (r: &mut PropagatedState)
        ensures
            *r == old(self).propagated_spec(),
            final(self).propagated_spec() == *final(r),
            final(self).hands_spec() == old(self).hands_spec(),
            final(self).kitty_spec() == old(self).kitty_spec(),
            final(self).bids_spec() == old(self).bids_spec(),
    {
        &mut self.propagated
    }

    /// Whose turn it is: while others may still steal the kitty, the
    /// exchanger's; otherwise the landlord's.
    pub fn next_player(&self) -> (r: Result<PlayerID, GameError>)
        ensures
            r == Ok::<PlayerID, GameError>(if self.propagated_spec().kitty_theft_policy_setting() == KittyTheftPolicy::AllowKittyTheft
                && self.autobid_spec() is None && !self.finalized_spec() {
                self.exchanger_spec()
            } else {
                self.landlord_spec()
            }),
    {
        if self.propagated.kitty_theft_policy() == KittyTheftPolicy::AllowKittyTheft && self.autobid.is_none() && !self.finalized {
            Ok(self.exchanger)
        } else {
            Ok(self.landlord)
        }
    }
}

/// What a friend selection is refused for, if anything.
fn check_friend(trump: Trump, policy: FriendSelectionPolicy, num_decks: usize, f: FriendSelection) -> (r: Option<GameError>)
    ensures
        r == friend_error(trump, policy, num_decks, f),
{
    if f.card.is_joker() || f.card.number() == Some(trump.number()) {
        return Some(GameError::FriendIsTrump);
    }
    if trump.suit().is_some() && f.card.suit() == trump.suit() {
        return Some(GameError::FriendIsTrumpSuit);
    }
    if f.initial_skip >= num_decks {
        return Some(GameError::FriendCardMissing);
    }
    if policy == FriendSelectionPolicy::HighestCardNotAllowed {
        let n = f.card.number();
        if n == Some(Number::Ace) || (trump.number() == Number::Ace && n == Some(Number::King)) {
            return Some(GameError::FriendIsHighestCard);
        }
    }
    None
}

/// The selections without repeats, in the order they first appear.
fn dedup_selections(s: &Vec<FriendSelection>) -> (r: Vec<FriendSelection>)
    ensures
        r@ == distinct_selections(s@),
{
    let mut out: Vec<FriendSelection> = Vec::new();
    let mut i: usize = 0;
    while i < s.len()
        invariant
            i <= s.len(),
            out@ == distinct_selections(s@.subrange(0, i as int)),
        decreases s.len() - i,
    {
        let f = s[i];
        let mut found = false;
        let mut j: usize = 0;
        while j < out.len()
            invariant
                j <= out.len(),
                found == exists|q: int| 0 <= q < j && out@[q] == f,
            decreases out.len() - j,
        {
            if out[j] == f {
                found = true;
            }
            j += 1;
        }
        proof {
            assert(s@.subrange(0, i + 1).drop_last() =~= s@.subrange(0, i as int));
            if found {
                let q = choose|q: int| 0 <= q < out@.len() && out@[q] == f;
                assert(out@.contains(f));
            } else {
                assert(!out@.contains(f));
            }
        }
        if !found {
            out.push(f);
        }
        i += 1;
    }
    assert(s@.subrange(0, s.len() as int) =~= s@);
    out
}

impl ExchangePhase {
    /// The landlord calls for friends by naming cards. In a game of finding
    /// friends, as many different cards as friends must be named, each
    /// allowed; the friends are replaced by the accepted ones, so a refused
    /// card leaves those named before it.
    pub fn set_friends(&mut self, id: PlayerID, selections: Vec<FriendSelection>) -> (r: Result<(), GameError>)
        ensures
            id != old(self).landlord_spec() ==> r == Err::<(), GameError>(GameError::NotLandlord) && *final(self) == *old(self),
            id == old(self).landlord_spec() && old(self).game_mode_spec() is Tractor
                ==> r == Err::<(), GameError>(GameError::NotFindingFriends) && *final(self) == *old(self),
            id == old(self).landlord_spec() ==> (old(self).game_mode_spec() matches GameMode::FindingFriends { num_friends, .. } ==> {
                let d = distinct_selections(selections@);
                let e = first_friend_error(old(self).trump_spec(), old(self).propagated_spec().friend_selection_policy_setting(),
                    old(self).num_decks_spec(), d, 0);
                &&& num_friends != d.len() ==> r == Err::<(), GameError>(GameError::WrongNumberOfFriends) && *final(self) == *old(self)
                &&& num_friends == d.len() ==> {
                    &&& r == (match e { Some(err) => Err::<(), GameError>(err), None => Ok(()) })
                    &&& final(self).game_mode_spec() matches GameMode::FindingFriends { num_friends: n, friends }
                        && n == num_friends && friends@.len() <= d.len()
                        && friends@ == d.subrange(0, friends@.len() as int).map_values(|f: FriendSelection| friend_of(f))
                    &&& r is Ok ==> final(self).game_mode_spec()->friends@.len() == d.len()
                }
            }),
            final(self).same_setup(*old(self)),
            final(self).hands_spec() == old(self).hands_spec(),
            final(self).kitty_spec() == old(self).kitty_spec(),
            final(self).bids_spec() == old(self).bids_spec(),
    {
        if self.landlord != id {
            return Err(GameError::NotLandlord);
        }
        let num_friends = match &self.game_mode {
            GameMode::FindingFriends { num_friends, .. } => *num_friends,
            GameMode::Tractor => {
                return Err(GameError::NotFindingFriends);
            },
        };
        let distinct = dedup_selections(&selections);
        if num_friends != distinct.len() {
            return Err(GameError::WrongNumberOfFriends);
        }
        let policy = self.propagated.friend_selection_policy();
        let ghost d = distinct@;
        let ghost t = self.trump;
        let mut friends: Vec<Friend> = Vec::new();
        let mut i: usize = 0;
        while i < distinct.len()
            invariant
                i <= distinct.len(),
                *self == *old(self),
                id == self.landlord,
                self.game_mode is FindingFriends,
                self.game_mode->num_friends == num_friends,
                num_friends == d.len(),
                d == distinct@,
                d == distinct_selections(selections@),
                t == self.trump,
                policy == self.propagated.friend_selection_policy_setting(),
                friends@ == d.subrange(0, i as int).map_values(|f: FriendSelection| friend_of(f)),
                first_friend_error(t, policy, self.num_decks, d, 0) == first_friend_error(t, policy, self.num_decks, d, i as int),
            decreases distinct.len() - i,
        {
            let f = distinct[i];
            match check_friend(self.trump, policy, self.num_decks, f) {
                Some(e) => {
                    self.game_mode = GameMode::FindingFriends { num_friends, friends };
                    return Err(e);
                },
                None => {},
            }
            friends.push(Friend { card: f.card, initial_skip: f.initial_skip, skip: f.initial_skip, player_id: None });
            i += 1;
            assert(friends@ =~= d.subrange(0, i as int).map_values(|f: FriendSelection| friend_of(f)));
        }
        self.game_mode = GameMode::FindingFriends { num_friends, friends };
        Ok(())
    }
}

/// A card listed once occurs once.
proof fn lemma_single(card: Card)
    ensures
        forall|c: Card| occurrences(seq![card], c) == (if c == card { 1nat } else { 0nat }),
{
    broadcast use vstd::seq_lib::group_to_multiset_ensures, vstd::multiset::group_multiset_axioms;
    assert(seq![card] =~= Seq::<Card>::empty().push(card));
    crate::types::lemma_occurrences_push(Seq::<Card>::empty(), card);
    assert forall|c: Card| occurrences(seq![card], c) == (if c == card { 1nat } else { 0nat }) by {
        assert(occurrences(Seq::<Card>::empty(), c) == 0);
    }
}


/// The ids of the first `k` players seated at the same parity as seat `li`.
pub open spec fn seated_with(players: Seq<Player>, li: int, k: int) -> Seq<PlayerID>
    decreases k,
{
    if k <= 0 {
        Seq::empty()
    } else {
        seated_with(players, li, k - 1) + (if (k - 1) % 2 == li % 2 {
            seq![players[k - 1].id]
        } else {
            Seq::empty()
        })
    }
}

/// The landlord's team when play starts: in a game of tractor, every other
/// player round the table from the landlord, who sits at `li`; when finding
/// friends, the landlord alone.
pub open spec fn starting_team(mode: GameMode, players: Seq<Player>, li: int, landlord: PlayerID) -> Seq<PlayerID> {
    match mode {
        GameMode::Tractor => seated_with(players, li, players.len() as int),
        GameMode::FindingFriends { .. } => seq![landlord],
    }
}

/// The ids of the players seated at the same parity as seat `li`.
fn seated_with_exec(players: &[Player], li: usize) -> (r: Vec<PlayerID>)
    ensures
        r@ == seated_with(players@, li as int, players@.len() as int),
{
    let mut team: Vec<PlayerID> = Vec::new();
    let mut i: usize = 0;
    while i < players.len()
        invariant
            i <= players.len(),
            team@ == seated_with(players@, li as int, i as int),
        decreases players.len() - i,
    {
        if i % 2 == li % 2 {
            team.push(players[i].id);
        }
        proof {
            assert(team@ =~= seated_with(players@, li as int, i + 1));
        }
        i += 1;
    }
    team
}

impl ExchangePhase {
    /// Why the exchange cannot end yet at the request of `id`, if it cannot:
    /// only the landlord ends it, with a full kitty, every friend called, and
    /// (when the kitty may be stolen) after the others had their chance.
    pub open spec fn advance_error(self, id: PlayerID) -> Option<GameError> {
        if id != self.landlord_spec() {
            Some(GameError::NotLandlord)
        } else if self.kitty_spec().len() != self.kitty_size_spec() {
            Some(GameError::WrongKittySize)
        } else if (self.game_mode_spec() matches GameMode::FindingFriends { num_friends, friends } && friends@.len() != num_friends) {
            Some(GameError::WrongNumberOfFriends)
        } else if self.propagated_spec().kitty_theft_policy_setting() == KittyTheftPolicy::AllowKittyTheft && self.autobid_spec() is None
            && !self.finalized_spec() {
            Some(GameError::StillExchanging)
        } else if !id_in(self.propagated_spec().players_spec(), self.landlord_spec()) {
            Some(GameError::PlayerNotFound)
        } else {
            None
        }
    }

    /// The landlord ends the exchange and the play starts, led by the
    /// landlord, with the hands, kitty and trump of the exchange and the
    /// landlord's team of `starting_team`.
    pub fn advance(&self, id: PlayerID) -> (r: Result<PlayPhase, GameError>)
        requires
            self.hands_spec().wf(),
        ensures
            self.advance_error(id) matches Some(e) ==> r == Err::<PlayPhase, GameError>(e),
            self.advance_error(id) is None ==> (r matches Ok(p) && {
                let players = self.propagated_spec().players_spec();
                let li = choose|k: int| is_first_landlord_position(players, self.landlord_spec(), k);
                &&& p.wf()
                &&& p.propagated_spec().same_state(self.propagated_spec())
                &&& p.hands_spec().trump_spec() == self.hands_spec().trump_spec()
                &&& forall|x: PlayerID| p.hands_spec().has_player(x) == self.hands_spec().has_player(x)
                &&& forall|x: PlayerID, c: Card| p.hands_spec().count(x, c) == self.hands_spec().count(x, c)
                &&& p.kitty_spec() == self.kitty_spec()
                &&& p.trump_spec() == self.trump_spec()
                &&& p.landlord_spec() == self.landlord_spec()
                &&& p.team_spec() == starting_team(self.game_mode_spec(), players, li, self.landlord_spec())
                &&& p.game_mode_spec().same_mode(self.game_mode_spec())
                &&& p.num_decks_spec() == self.num_decks_spec()
                &&& !p.ended_early()
                &&& p.points_spec().len() == players.len()
                &&& forall|i: int| 0 <= i < p.points_spec().len() ==> (#[trigger] p.points_spec()[i]).0 == players[i].id
                    && p.points_spec()[i].1@.len() == 0
                &&& forall|i: int| 0 <= i < p.penalties_spec().len() ==> (#[trigger] p.penalties_spec()[i]) == (players[i].id, 0usize)
                &&& p.penalties_spec().len() == players.len()
                &&& p.trick_spec().queue() == rotation(players, li)
                &&& p.trick_spec().plays().len() == 0
            }),
    {
        if id != self.landlord {
            return Err(GameError::NotLandlord);
        }
        if self.kitty.len() != self.kitty_size {
            return Err(GameError::WrongKittySize);
        }
        if let GameMode::FindingFriends { num_friends, friends } = &self.game_mode {
            if friends.len() != *num_friends {
                return Err(GameError::WrongNumberOfFriends);
            }
        }
        if self.propagated.kitty_theft_policy() == KittyTheftPolicy::AllowKittyTheft && self.autobid.is_none() && !self.finalized {
            return Err(GameError::StillExchanging);
        }
        let players = self.propagated.players();
        let landlord_idx = match find_landlord_seat(players, self.landlord) {
            Some(i) => i,
            None => {
                return Err(GameError::PlayerNotFound);
            },
        };
        let ghost li = choose|k: int| is_first_landlord_position(players@, self.landlord_spec(), k);
        proof {
            assert(is_first_landlord_position(players@, self.landlord_spec(), landlord_idx as int));
            if li != landlord_idx as int {
                if li < landlord_idx {
                    assert(players@[li].id == self.landlord);
                } else {
                    assert(players@[landlord_idx as int].id == self.landlord);
                }
            }
        }
        let landlords_team = match &self.game_mode {
            GameMode::Tractor => seated_with_exec(players, landlord_idx),
            GameMode::FindingFriends { .. } => {
                let mut team: Vec<PlayerID> = Vec::new();
                team.push(self.landlord);
                proof {
                    assert(team@ =~= seq![self.landlord]);
                }
                team
            },
        };
        let propagated = self.propagated.clone();
        let r = PlayPhase::new(
            propagated,
            self.num_decks,
            self.game_mode.clone(),
            self.hands.clone(),
            vstd::slice::slice_to_vec(self.kitty.as_slice()),
            self.trump,
            self.landlord,
            self.exchanger,
            landlords_team,
            vstd::slice::slice_to_vec(self.removed_cards.as_slice()),
            vstd::slice::slice_to_vec(self.decks.as_slice()),
        );
        proof {
            if r is Ok {
                let p = r->Ok_0;
                let k = choose|k: int| is_first_landlord_position(propagated.players_spec(), self.landlord, k) && p.trick_spec().queue() == rotation(propagated.players_spec(), k);
                if k != li {
                    if k < li {
                        assert(players@[k].id == self.landlord);
                    } else {
                        assert(players@[li].id == self.landlord);
                    }
                }
            }
        }
        r
    }
}

/// The seat of the first player with the given id.
fn find_landlord_seat(players: &[Player], id: PlayerID) -> (r: Option<usize>)
    ensures
        r matches Some(i) ==> is_first_landlord_position(players@, id, i as int),
        r is None ==> !id_in(players@, id),
{
    let mut i: usize = 0;
    while i < players.len()
        invariant
            i <= players.len(),
            forall|j: int| 0 <= j < i ==> players@[j].id != id,
        decreases players.len() - i,
    {
        if players[i].id == id {
            return Some(i);
        }
        i += 1;
    }
    None
}


impl ExchangePhase {
    /// Goes back to setting up, with every observer made a player (see
    /// `resets`).
    pub fn return_to_initialize(&self) -> (r: Result<(crate::game_state::InitializePhase, Vec<MessageVariant>), GameError>)
        requires
            self.propagated_spec().can_recount((self.propagated_spec().players_spec().len() + self.propagated_spec().observers_spec().len()) as int),
        ensures
            resets(self.propagated_spec(), r),
    {
        reset_game(&self.propagated)
    }
}


impl ExchangePhase {
    /// What the player may see: the others' hands are turned face down, the
    /// kitty too unless the player is exchanging and has not put it down,
    /// and the friends called unless the player is the landlord.
    pub open spec fn redacted_for(self, player: PlayerID, after: ExchangePhase) -> bool {
        &&& after.hands_spec().wf()
        &&& forall|x: PlayerID| after.hands_spec().has_player(x) == self.hands_spec().has_player(x)
        &&& forall|x: PlayerID, c: Card| #[trigger] after.hands_spec().count(x, c) == if x == player || !self.hands_spec().has_player(x) {
                self.hands_spec().count(x, c) as int
        } else if c == Card::Unknown {
                self.hands_spec().hand_size(x)
        } else {
                0
        }
        &&& after.kitty_spec() == if player != self.exchanger_spec() || self.finalized_spec() {
                Seq::new(self.kitty_spec().len(), |i: int| Card::Unknown)
        } else {
                self.kitty_spec()
        }
        &&& player != self.landlord_spec() ==> match self.game_mode_spec() {
                GameMode::FindingFriends { num_friends, .. } => after.game_mode_spec() matches GameMode::FindingFriends { num_friends: n, friends }
                    && n == num_friends && friends@.len() == 0,
                GameMode::Tractor => after.game_mode_spec() is Tractor
        }
        &&& player == self.landlord_spec() ==> after.game_mode_spec() == self.game_mode_spec()
        &&& after.propagated_spec() == self.propagated_spec()
        &&& after.landlord_spec() == self.landlord_spec()
        &&& after.exchanger_spec() == self.exchanger_spec()
        &&& after.bids_spec() == self.bids_spec()
        &&& after.trump_spec() == self.trump_spec()
        &&& after.epoch_spec() == self.epoch_spec()
        &&& after.finalized_spec() == self.finalized_spec()
        &&& after.same_setup(self)
    }

    /// Hides from the phase what the player may not see (see
    /// `redacted_for`).
    pub fn destructively_redact_for_player(&mut self, player: PlayerID)
        requires
            old(self).hands_spec().wf(),
            forall|x: PlayerID| old(self).hands_spec().has_player(x) ==> #[trigger] old(self).hands_spec().hand_size(x) <= usize::MAX,
        ensures
            old(self).redacted_for(player, *final(self)),
    {
        self.hands.destructively_redact_except_for_player(player);
        if player != self.exchanger || self.finalized {
            let n = self.kitty.len();
            let mut v: Vec<Card> = Vec::new();
            let mut i: usize = 0;
            while i < n
                invariant
                    i <= n,
                    v@ == Seq::new(i as nat, |k: int| Card::Unknown),
                decreases n - i,
            {
                v.push(Card::Unknown);
                i += 1;
                assert(v@ =~= Seq::new(i as nat, |k: int| Card::Unknown));
            }
            self.kitty = v;
        }
        if player != self.landlord {
            let cleared = match &self.game_mode {
                GameMode::FindingFriends { num_friends, .. } => Some(*num_friends),
                GameMode::Tractor => None,
            };
            if let Some(num_friends) = cleared {
                self.game_mode = GameMode::FindingFriends { num_friends, friends: Vec::new() };
            }
        }
    }
}

} // verus!
