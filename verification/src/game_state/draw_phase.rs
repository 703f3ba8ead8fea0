//! Drawing the cards: players take turns drawing from the deck and may bid
//! for trump while they do.

use vstd::prelude::*;

use crate::bidding::{valid_bid_set, Bid, BidError, JokerBidPolicy};
use crate::deck::Deck;
use crate::game_state::exchange_phase::ExchangePhase;
use crate::game_state::GameError;
use crate::game_state::initialize_phase::{reset_game, resets};
use crate::message::MessageVariant;
use crate::hands::Hands;
use crate::player::Player;
use crate::settings::{FirstLandlordSelectionPolicy, GameMode, KittyBidPolicy, PropagatedState};
use crate::types::{card_number, is_joker_spec, occurrences, total_key, Card, PlayerID, Rank, Trump};

verus! {

#[derive(Debug)]
pub struct DrawPhase {
    num_decks: usize,
    game_mode: GameMode,
    deck: Vec<Card>,
    propagated: PropagatedState,
    hands: Hands,
    bids: Vec<Bid>,
    autobid: Option<Bid>,
    position: usize,
    kitty: Vec<Card>,
    revealed_cards: usize,
    level: Option<Rank>,
    removed_cards: Vec<Card>,
    decks: Vec<Deck>,
}

/// Who leads once the deck is drawn: the landlord if there is one, else the
/// winner or the first of the bids, as the policy says.
pub open spec fn chosen_landlord(p: PropagatedState, first: Bid, winner: Bid) -> PlayerID {
    match p.landlord_spec() {
        Some(l) => l,
        None => match p.first_landlord_selection_policy_setting() {
            FirstLandlordSelectionPolicy::ByWinningBid => winner.id,
            FirstLandlordSelectionPolicy::ByFirstBid => first.id,
        },
    }
}

/// The first and the winning bid: the first bid made (or the automatic one),
/// and the automatic bid if any, else the last bid.
pub open spec fn first_bid(bids: Seq<Bid>, autobid: Option<Bid>) -> Bid {
    if bids.len() > 0 { bids[0] } else { autobid->0 }
}

pub open spec fn winning_bid(bids: Seq<Bid>, autobid: Option<Bid>) -> Bid {
    match autobid {
        Some(a) => a,
        None => bids.last(),
    }
}

impl DrawPhase {
    pub closed spec fn deck_spec(self) -> Seq<Card> {
        self.deck@
    }

    pub closed spec fn kitty_spec(self) -> Seq<Card> {
        self.kitty@
    }

    pub closed spec fn propagated_spec(self) -> PropagatedState {
        self.propagated
    }

    pub closed spec fn hands_spec(self) -> Hands {
        self.hands
    }

    pub closed spec fn bids_spec(self) -> Seq<Bid> {
        self.bids@
    }

    pub closed spec fn autobid_spec(self) -> Option<Bid> {
        self.autobid
    }

    pub closed spec fn position_spec(self) -> usize {
        self.position
    }

    pub closed spec fn revealed_spec(self) -> usize {
        self.revealed_cards
    }

    pub closed spec fn num_decks_spec(self) -> usize {
        self.num_decks
    }

    pub closed spec fn removed_cards_spec(self) -> Seq<Card> {
        self.removed_cards@
    }

    pub closed spec fn game_mode_spec(self) -> GameMode {
        self.game_mode
    }

    pub closed spec fn level_spec(self) -> Option<Rank> {
        self.level
    }

    pub closed spec fn decks_spec(self) -> Seq<Deck> {
        self.decks@
    }

    /// Everything but the deck, the hands, the position and the bids.
    pub open spec fn same_setup(self, other: DrawPhase) -> bool {
        &&& self.num_decks_spec() == other.num_decks_spec()
        &&& self.game_mode_spec() == other.game_mode_spec()
        &&& self.propagated_spec() == other.propagated_spec()
        &&& self.autobid_spec() == other.autobid_spec()
        &&& self.kitty_spec() == other.kitty_spec()
        &&& self.revealed_spec() == other.revealed_spec()
        &&& self.level_spec() == other.level_spec()
        &&& self.removed_cards_spec() == other.removed_cards_spec()
        &&& self.decks_spec() == other.decks_spec()
    }

    /// A phase in which every player gets an empty hand and nobody has bid.
    pub fn new(
        propagated: PropagatedState,
        position: usize,
        deck: Vec<Card>,
        kitty: Vec<Card>,
        num_decks: usize,
        game_mode: GameMode,
        level: Option<Rank>,
        decks: Vec<Deck>,
        removed_cards: Vec<Card>,
    ) -> (r: Self)
        ensures
            r.propagated_spec() == propagated,
            r.position_spec() == position,
            r.deck_spec() == deck@,
            r.kitty_spec() == kitty@,
            r.num_decks_spec() == num_decks,
            r.removed_cards_spec() == removed_cards@,
            r.game_mode_spec() == game_mode,
            r.level_spec() == level,
            r.decks_spec() == decks@,
            r.bids_spec().len() == 0,
            r.autobid_spec() is None,
            r.revealed_spec() == 0,
            r.hands_spec().wf(),
            forall|id: PlayerID| r.hands_spec().has_player(id) <==> crate::settings::id_in(propagated.players_spec(), id),
            forall|id: PlayerID, c: Card| r.hands_spec().count(id, c) == 0,
    {
        let players = propagated.players();
        let mut ids: Vec<PlayerID> = Vec::new();
        let mut i: usize = 0;
        while i < players.len()
            invariant
                i <= players.len(),
                ids@ == players@.subrange(0, i as int).map_values(|p: Player| p.id),
            decreases players.len() - i,
        {
            ids.push(players[i].id);
            i += 1;
            assert(ids@ =~= players@.subrange(0, i as int).map_values(|p: Player| p.id));
        }
        assert(players@.subrange(0, players.len() as int) =~= players@);
        let ghost idseq = ids@;
        let hands = Hands::new(ids);
        proof {
            assert forall|id: PlayerID| hands.has_player(id) <==> crate::settings::id_in(propagated.players_spec(), id) by {
                if idseq.contains(id) {
                    let k = choose|k: int| 0 <= k < idseq.len() && idseq[k] == id;
                    assert(propagated.players_spec()[k].id == id);
                }
                if crate::settings::id_in(propagated.players_spec(), id) {
                    let k = choose|k: int| 0 <= k < propagated.players_spec().len() && (#[trigger] propagated.players_spec()[k]).id == id;
                    assert(idseq[k] == id);
                }
            }
        }
        DrawPhase {
            hands,
            deck,
            kitty,
            propagated,
            position,
            num_decks,
            decks,
            game_mode,
            level,
            removed_cards,
            bids: Vec::new(),
            revealed_cards: 0,
            autobid: None,
        }
    }

    pub fn propagated(&self) -> (r: &PropagatedState)
        ensures
            *r == self.propagated_spec(),
    {
        &self.propagated
    }

    pub fn propagated_mut(&mut self) -> (r: &mut PropagatedState)
        ensures
            *r == old(self).propagated_spec(),
            final(self).propagated_spec() == *final(r),
            final(self).deck_spec() == old(self).deck_spec(),
            final(self).hands_spec() == old(self).hands_spec(),
            final(self).bids_spec() == old(self).bids_spec(),
            final(self).position_spec() == old(self).position_spec(),
    {
        &mut self.propagated
    }

    pub fn removed_cards(&self) -> (r: &[Card])
        ensures
            r@ == self.removed_cards_spec(),
    {
        self.removed_cards.as_slice()
    }

    pub fn deck(&self) -> (r: &[Card])
        ensures
            r@ == self.deck_spec(),
    {
        self.deck.as_slice()
    }

    pub fn kitty(&self) -> (r: &[Card])
        ensures
            r@ == self.kitty_spec(),
    {
        self.kitty.as_slice()
    }

    pub fn deck_mut(&mut self) -> (r: &mut Vec<Card>)
        ensures
            r@ == old(self).deck_spec(),
            final(self).deck_spec() == final(r)@,
            final(self).same_setup(*old(self)),
            final(self).hands_spec() == old(self).hands_spec(),
            final(self).bids_spec() == old(self).bids_spec(),
            final(self).position_spec() == old(self).position_spec(),
    {
        &mut self.deck
    }

    pub fn position_mut(&mut self) -> (r: &mut usize)
        ensures
            *r == old(self).position_spec(),
            final(self).position_spec() == *final(r),
            final(self).same_setup(*old(self)),
            final(self).hands_spec() == old(self).hands_spec(),
            final(self).bids_spec() == old(self).bids_spec(),
            final(self).deck_spec() == old(self).deck_spec(),
    {
        &mut self.position
    }

    pub fn kitty_mut(&mut self) -> (r: &mut Vec<Card>)
        ensures
            r@ == old(self).kitty_spec(),
            final(self).kitty_spec() == final(r)@,
            final(self).hands_spec() == old(self).hands_spec(),
            final(self).bids_spec() == old(self).bids_spec(),
            final(self).deck_spec() == old(self).deck_spec(),
            final(self).position_spec() == old(self).position_spec(),
    {
        &mut self.kitty
    }

    pub fn add_observer(&mut self, name: String) -> (r: Result<PlayerID, GameError>)
        requires
            old(self).propagated_spec().next_id() < usize::MAX,
        ensures
            r is Err ==> *final(self) == *old(self),
            r is Err <==> crate::settings::name_in(old(self).propagated_spec().players_spec(), name@)
                || crate::settings::name_in(old(self).propagated_spec().observers_spec(), name@),
            r matches Ok(id) ==> id == PlayerID(old(self).propagated_spec().next_id())
                && final(self).propagated_spec().observers_spec() == old(self).propagated_spec().observers_spec().push(
                crate::settings::new_player(id, name)),
            final(self).propagated_spec().players_spec() == old(self).propagated_spec().players_spec(),
    {
        match self.propagated.add_observer(name) {
            Ok(id) => Ok(id),
            Err(e) => Err(GameError::Settings { source: e }),
        }
    }

    pub fn remove_observer(&mut self, id: PlayerID) -> (r: Result<(), GameError>)
        ensures
            r is Ok,
            final(self).propagated_spec().observers_spec() == crate::settings::without_id(old(self).propagated_spec().observers_spec(), id),
            final(self).propagated_spec().players_spec() == old(self).propagated_spec().players_spec(),
    {
        match self.propagated.remove_observer(id) {
            Ok(()) => Ok(()),
            Err(e) => Err(GameError::Settings { source: e }),
        }
    }

    /// Whose turn it is: the next to draw, or once the deck is drawn, the
    /// one who leads.
    pub fn next_player(&self) -> (r: Result<PlayerID, GameError>)
        requires
            self.deck_spec().len() > 0 ==> self.position_spec() < self.propagated_spec().players_spec().len(),
        ensures
            self.deck_spec().len() > 0 ==> r == Ok::<PlayerID, GameError>(self.propagated_spec().players_spec()[self.position_spec() as int].id),
            self.deck_spec().len() == 0 ==> (self.bids_spec().len() == 0 && self.autobid_spec() is None
                <==> r == Err::<PlayerID, GameError>(GameError::Bid { source: BidError::NoBids })),
            self.deck_spec().len() == 0 && (self.bids_spec().len() > 0 || self.autobid_spec() is Some) ==> r == Ok::<PlayerID, GameError>(
                chosen_landlord(self.propagated_spec(), first_bid(self.bids_spec(), self.autobid_spec()), winning_bid(self.bids_spec(), self.autobid_spec()))),
    {
        if self.deck.len() == 0 {
            let (first, winner) = match Bid::first_and_winner(self.bids.as_slice(), self.autobid) {
                Ok(x) => x,
                Err(e) => {
                    return Err(GameError::Bid { source: e });
                },
            };
            let landlord = match self.propagated.landlord() {
                Some(l) => l,
                None => match self.propagated.first_landlord_selection_policy() {
                    FirstLandlordSelectionPolicy::ByWinningBid => winner.id,
                    FirstLandlordSelectionPolicy::ByFirstBid => first.id,
                },
            };
            Ok(landlord)
        } else {
            let players = self.propagated.players();
            Ok(players[self.position].id)
        }
    }

    /// The player whose turn it is draws the last card of the deck, and the
    /// turn passes on.
    pub fn draw_card(&mut self, id: PlayerID) -> (r: Result<(), GameError>)
        requires
            old(self).position_spec() < old(self).propagated_spec().players_spec().len(),
            old(self).hands_spec().wf(),
            forall|c: Card| old(self).hands_spec().count(id, c) < usize::MAX,
        ensures
            final(self).hands_spec().wf(),
            id != old(self).propagated_spec().players_spec()[old(self).position_spec() as int].id
                ==> r == Err::<(), GameError>(GameError::NotYourTurn) && *final(self) == *old(self),
            id == old(self).propagated_spec().players_spec()[old(self).position_spec() as int].id && old(self).deck_spec().len() == 0
                ==> r == Err::<(), GameError>(GameError::NoCardsLeft) && *final(self) == *old(self),
            id == old(self).propagated_spec().players_spec()[old(self).position_spec() as int].id && old(self).deck_spec().len() > 0 ==> {
                &&& final(self).deck_spec() == old(self).deck_spec().drop_last()
                &&& (r is Ok <==> old(self).hands_spec().has_player(id))
                &&& r is Err ==> r == Err::<(), GameError>(GameError::Hand { source: crate::hands::HandError::NotAPlayer })
                &&& forall|x: PlayerID, c: Card| #[trigger] final(self).hands_spec().count(x, c) == old(self).hands_spec().count(x, c)
                    + (if r is Ok && x == id && c == old(self).deck_spec().last() { 1int } else { 0int })
                &&& r is Ok ==> final(self).position_spec() == (old(self).position_spec() + 1) % (old(self).propagated_spec().players_spec().len() as int)
            },
            final(self).same_setup(*old(self)),
            final(self).bids_spec() == old(self).bids_spec(),
    {
        let players = self.propagated.players();
        if id != players[self.position].id {
            return Err(GameError::NotYourTurn);
        }
        let n = players.len();
        if self.deck.len() == 0 {
            return Err(GameError::NoCardsLeft);
        }
        match self.deck.pop() {
            Some(next_card) => {
                let mut one: Vec<Card> = Vec::new();
                one.push(next_card);
                proof {
                    broadcast use vstd::seq_lib::group_to_multiset_ensures, vstd::multiset::group_multiset_axioms;
                    assert(one@ =~= Seq::<Card>::empty().push(next_card));
                    crate::types::lemma_occurrences_push(Seq::<Card>::empty(), next_card);
                    assert forall|c: Card| occurrences(one@, c) == (if c == next_card { 1nat } else { 0nat }) by {
                        assert(occurrences(Seq::<Card>::empty(), c) == 0);
                    }
                }
                match self.hands.add(id, one) {
                    Ok(()) => {},
                    Err(e) => {
                        return Err(GameError::Hand { source: e });
                    },
                }
                self.position = (self.position + 1) % n;
                Ok(())
            },
            None => Err(GameError::NoCardsLeft),
        }
    }

    /// Makes a bid, unless a card of the kitty has been revealed. Returns
    /// whether the bid was made.
    pub fn bid(&mut self, id: PlayerID, card: Card, count: usize) -> (r: bool)
        requires
            old(self).hands_spec().wf(),
            old(self).propagated_spec().joker_bid_policy_setting() == JokerBidPolicy::LJNumDecksHJNumDecksLessOne
                && old(self).hands_spec().count(id, Card::BigJoker) > 0
                ==> old(self).num_decks_spec() >= 1,
        ensures
            r == (old(self).revealed_spec() == 0 && old(self).autobid_spec() is None && valid_bid_set(
                id,
                old(self).bids_spec(),
                old(self).hands_spec(),
                old(self).propagated_spec().players_spec(),
                old(self).propagated_spec().landlord_spec(),
                0,
                old(self).propagated_spec().bid_policy_setting(),
                old(self).propagated_spec().bid_reinforcement_policy_setting(),
                old(self).propagated_spec().joker_bid_policy_setting(),
                old(self).num_decks_spec(),
            ).contains(Bid { id, card, count, epoch: 0 })),
            final(self).bids_spec() == (if r { old(self).bids_spec().push(Bid { id, card, count, epoch: 0 }) } else { old(self).bids_spec() }),
            final(self).same_setup(*old(self)),
            final(self).hands_spec() == old(self).hands_spec(),
            final(self).deck_spec() == old(self).deck_spec(),
            final(self).position_spec() == old(self).position_spec(),
    {
        if self.revealed_cards > 0 {
            return false;
        }
        let players = self.propagated.players();
        Bid::bid(
            id,
            card,
            count,
            &mut self.bids,
            self.autobid,
            &self.hands,
            players,
            self.propagated.landlord(),
            self.propagated.bid_policy(),
            self.propagated.bid_reinforcement_policy(),
            self.propagated.joker_bid_policy(),
            self.num_decks,
            0,
        )
    }

    /// Takes back the player's last bid, if the policy allows it.
    pub fn take_back_bid(&mut self, id: PlayerID) -> (r: Result<(), GameError>)
        ensures
            r == (match crate::bidding::take_back_outcome(id, old(self).propagated_spec().bid_takeback_policy_setting(), old(self).bids_spec(), 0) {
                Ok(()) => Ok::<(), GameError>(()),
                Err(e) => Err(GameError::Bid { source: e }),
            }),
            final(self).bids_spec() == (if r is Ok { old(self).bids_spec().drop_last() } else { old(self).bids_spec() }),
            final(self).same_setup(*old(self)),
            final(self).hands_spec() == old(self).hands_spec(),
            final(self).deck_spec() == old(self).deck_spec(),
            final(self).position_spec() == old(self).position_spec(),
    {
        match Bid::take_back_bid(id, self.propagated.bid_takeback_policy(), &mut self.bids, 0) {
            Ok(()) => Ok(()),
            Err(e) => Err(GameError::Bid { source: e }),
        }
    }

    pub fn done_drawing(&self) -> (r: bool)
        ensures
            r == (self.deck_spec().len() == 0),
    {
        self.deck.len() == 0
    }
}


/// The trump a winning bid makes at a level: the suit of the card bid, or
/// no trump suit for a joker.
pub open spec fn trump_of_bid(card: Card, level: crate::types::Number) -> Trump {
    match card {
        Card::Suited { suit, .. } => Trump::Standard { suit, number: level },
        _ => Trump::NoTrump { number: level },
    }
}

impl DrawPhase {
    /// Who leads once the deck is drawn, if that is settled.
    pub open spec fn leader(self) -> Option<PlayerID> {
        match self.propagated_spec().landlord_spec() {
            Some(l) => Some(l),
            None => if self.bids_spec().len() == 0 && self.autobid_spec() is None {
                None
            } else {
                Some(chosen_landlord(self.propagated_spec(), first_bid(self.bids_spec(), self.autobid_spec()), winning_bid(self.bids_spec(), self.autobid_spec())))
            },
        }
    }

    /// Once the deck is drawn, the leader moves the game on to the exchange,
    /// with trump set by the winning bid at the leader's level.
    pub fn advance(&self, id: PlayerID) -> (r: Result<ExchangePhase, GameError>)
        requires
            self.hands_spec().wf(),
        ensures
            self.deck_spec().len() > 0 ==> r == Err::<ExchangePhase, GameError>(GameError::DeckNotEmpty),
            self.deck_spec().len() == 0 && self.leader() is None ==> r == Err::<ExchangePhase, GameError>(GameError::Bid { source: BidError::NoBids }),
            self.deck_spec().len() == 0 ==> (self.leader() matches Some(l) ==> {
                &&& id != l ==> r == Err::<ExchangePhase, GameError>(GameError::NotLandlord)
                &&& id == l ==> match crate::bidding::rank_of(self.propagated_spec().players_spec(), l) {
                    None => r == Err::<ExchangePhase, GameError>(GameError::PlayerNotFound),
                    Some(Rank::NoTrump) => r == Err::<ExchangePhase, GameError>(GameError::NoTrumpLevel),
                    Some(Rank::Number(n)) => if self.bids_spec().len() == 0 && self.autobid_spec() is None {
                        r == Err::<ExchangePhase, GameError>(GameError::Bid { source: BidError::NoBids })
                    } else if winning_bid(self.bids_spec(), self.autobid_spec()).card == Card::Unknown {
                        r == Err::<ExchangePhase, GameError>(GameError::UnknownCardBid)
                    } else {
                        r matches Ok(ex) && {
                            let t = trump_of_bid(winning_bid(self.bids_spec(), self.autobid_spec()).card, n);
                            &&& ex.trump_spec() == t
                            &&& ex.landlord_spec() == l
                            &&& ex.exchanger_spec() == l
                            &&& ex.hands_spec().wf()
                            &&& ex.hands_spec().trump_spec() == Some(t)
                            &&& forall|x: PlayerID, c: Card| ex.hands_spec().count(x, c) == self.hands_spec().count(x, c)
                            &&& forall|x: PlayerID| ex.hands_spec().has_player(x) == self.hands_spec().has_player(x)
                            &&& ex.kitty_spec() == self.kitty_spec()
                            &&& ex.kitty_size_spec() == self.kitty_spec().len()
                            &&& ex.bids_spec() == self.bids_spec()
                            &&& ex.autobid_spec() == self.autobid_spec()
                            &&& ex.num_decks_spec() == self.num_decks_spec()
                            &&& ex.propagated_spec().same_state(self.propagated_spec())
                            &&& !ex.finalized_spec()
                            &&& ex.epoch_spec() == 1
                        }
                    },
                }
            }),
    {
        if self.deck.len() > 0 {
            return Err(GameError::DeckNotEmpty);
        }
        let landlord = match self.propagated.landlord() {
            Some(l) => l,
            None => {
                let (first, winner) = match Bid::first_and_winner(self.bids.as_slice(), self.autobid) {
                    Ok(x) => x,
                    Err(e) => {
                        return Err(GameError::Bid { source: e });
                    },
                };
                match self.propagated.first_landlord_selection_policy() {
                    FirstLandlordSelectionPolicy::ByWinningBid => winner.id,
                    FirstLandlordSelectionPolicy::ByFirstBid => first.id,
                }
            },
        };
        if id != landlord {
            return Err(GameError::NotLandlord);
        }
        let landlord_level = match crate::bidding::find_rank(self.propagated.players(), landlord) {
            Some(level) => level,
            None => {
                return Err(GameError::PlayerNotFound);
            },
        };
        let trump = match landlord_level {
            Rank::NoTrump => {
                return Err(GameError::NoTrumpLevel);
            },
            Rank::Number(level) => {
                let (_, winner) = match Bid::first_and_winner(self.bids.as_slice(), self.autobid) {
                    Ok(x) => x,
                    Err(e) => {
                        return Err(GameError::Bid { source: e });
                    },
                };
                match winner.card {
                    Card::Unknown => {
                        return Err(GameError::UnknownCardBid);
                    },
                    Card::SmallJoker | Card::BigJoker => Trump::NoTrump { number: level },
                    Card::Suited { suit, .. } => Trump::Standard { suit, number: level },
                }
            },
        };
        let mut hands = self.hands.clone();
        hands.set_trump(trump);
        Ok(ExchangePhase::new(
            self.propagated.clone(),
            self.num_decks,
            self.game_mode.clone(),
            vstd::slice::slice_to_vec(self.kitty.as_slice()),
            landlord,
            hands,
            trump,
            vstd::slice::slice_to_vec(self.bids.as_slice()),
            self.autobid,
            vstd::slice::slice_to_vec(self.removed_cards.as_slice()),
            vstd::slice::slice_to_vec(self.decks.as_slice()),
        ))
    }
}


impl DrawPhase {
    /// Goes back to setting up, with every observer made a player (see
    /// `resets`).
    pub fn return_to_initialize(&self) -> (r: Result<(crate::game_state::InitializePhase, Vec<MessageVariant>), GameError>)
        requires
            self.propagated_spec().can_recount((self.propagated_spec().players_spec().len() + self.propagated_spec().observers_spec().len()) as int),
        ensures
            resets(self.propagated_spec(), r),
    {
        reset_game(&self.propagated)
    }
}


/// Whether `c` is the highest card of `s` when `t` is trump.
pub open spec fn is_highest(t: Trump, s: Seq<Card>, c: Card) -> bool {
    &&& s.contains(c)
    &&& forall|i: int| 0 <= i < s.len() ==> total_key(t, #[trigger] s[i]) <= total_key(t, c)
}

/// The highest card of a list that is not empty.
fn highest_card(t: Trump, cards: &[Card]) -> (r: Card)
    requires
        cards@.len() > 0,
    ensures
        is_highest(t, cards@, r),
{
    let mut bi: usize = 0;
    let mut i: usize = 1;
    while i < cards.len()
        invariant
            1 <= i <= cards@.len(),
            bi < i,
            forall|j: int| 0 <= j < i ==> total_key(t, #[trigger] cards@[j]) <= total_key(t, cards@[bi as int]),
        decreases cards.len() - i,
    {
        if t.total_order_key(cards[i]) > t.total_order_key(cards[bi]) {
            bi = i;
        }
        i += 1;
    }
    let best = cards[bi];
    proof {
        assert(cards@[bi as int] == best);
    }
    best
}

impl DrawPhase {
    /// Why no card of the kitty can be revealed, if none can: the deck must
    /// be drawn, nobody may have bid, and the landlord must be chosen, at a
    /// number rank, with a card left to reveal and no bid made from the
    /// kitty yet.
    pub open spec fn reveal_error(self) -> Option<GameError> {
        if self.deck_spec().len() > 0 {
            Some(GameError::DeckNotEmpty)
        } else if self.bids_spec().len() > 0 {
            Some(GameError::AlreadyBid)
        } else {
            match self.propagated_spec().landlord_spec() {
                None => Some(GameError::NoLandlord),
                Some(l) => match crate::bidding::rank_of(self.propagated_spec().players_spec(), l) {
                    None => Some(GameError::PlayerNotFound),
                    Some(Rank::NoTrump) => Some(GameError::NoTrumpLevel),
                    Some(Rank::Number(_)) => if self.revealed_spec() >= self.kitty_spec().len() || self.autobid_spec() is Some {
                        Some(GameError::NothingToReveal)
                    } else {
                        None
                    },
                },
            }
        }
    }

    /// Whether revealing the next card of the kitty makes the landlord's bid
    /// `bid` (or none): under `FirstCard`, the card revealed; under
    /// `FirstCardOfLevelOrHighest`, the card revealed if it is a joker or of
    /// the landlord's level, else, once the last card is revealed, the
    /// highest card of the kitty with no trump suit.
    pub open spec fn reveal_bid(self, bid: Option<Bid>) -> bool {
        let l = self.propagated_spec().landlord_spec()->0;
        let n = crate::bidding::rank_of(self.propagated_spec().players_spec(), l)->0->Number_0;
        let card = self.kitty_spec()[self.revealed_spec() as int];
        let level_card = is_joker_spec(card) || card_number(card) == Some(n);
        match self.propagated_spec().kitty_bid_policy_setting() {
            KittyBidPolicy::FirstCard => bid == Some(Bid { count: 1, id: l, card, epoch: 0 }),
            KittyBidPolicy::FirstCardOfLevelOrHighest => if level_card {
                bid == Some(Bid { count: 1, id: l, card, epoch: 0 })
            } else if self.revealed_spec() + 1 >= self.kitty_spec().len() {
                bid matches Some(b) && b.count == 1 && b.id == l && b.epoch == 0
                    && is_highest(Trump::NoTrump { number: n }, self.kitty_spec(), b.card)
            } else {
                bid is None
            },
        }
    }

    /// Reveals the next card of the kitty once the deck is drawn and nobody
    /// has bid, which may make the landlord's bid for them (see
    /// `reveal_bid`).
    pub fn reveal_card(&mut self) -> (r: Result<MessageVariant, GameError>)
        ensures
            old(self).reveal_error() matches Some(e) ==> r == Err::<MessageVariant, GameError>(e) && *final(self) == *old(self),
            old(self).reveal_error() is None ==> {
                &&& r == Ok::<MessageVariant, GameError>(MessageVariant::RevealedCardFromKitty)
                &&& old(self).reveal_bid(final(self).autobid_spec())
                &&& final(self).revealed_spec() == old(self).revealed_spec() + 1
                &&& final(self).deck_spec() == old(self).deck_spec()
                &&& final(self).kitty_spec() == old(self).kitty_spec()
                &&& final(self).hands_spec() == old(self).hands_spec()
                &&& final(self).bids_spec() == old(self).bids_spec()
                &&& final(self).position_spec() == old(self).position_spec()
                &&& final(self).propagated_spec() == old(self).propagated_spec()
                &&& final(self).num_decks_spec() == old(self).num_decks_spec()
                &&& final(self).game_mode_spec() == old(self).game_mode_spec()
                &&& final(self).level_spec() == old(self).level_spec()
                &&& final(self).removed_cards_spec() == old(self).removed_cards_spec()
                &&& final(self).decks_spec() == old(self).decks_spec()
            },
    {
        if self.deck.len() > 0 {
            return Err(GameError::DeckNotEmpty);
        }
        if self.bids.len() > 0 {
            return Err(GameError::AlreadyBid);
        }
        let id = match self.propagated.landlord() {
            Some(id) => id,
            None => {
                return Err(GameError::NoLandlord);
            },
        };
        let level = match crate::bidding::find_rank(self.propagated.players(), id) {
            Some(Rank::Number(n)) => n,
            Some(Rank::NoTrump) => {
                return Err(GameError::NoTrumpLevel);
            },
            None => {
                return Err(GameError::PlayerNotFound);
            },
        };
        if self.revealed_cards >= self.kitty.len() || self.autobid.is_some() {
            return Err(GameError::NothingToReveal);
        }
        let card = self.kitty[self.revealed_cards];
        match self.propagated.kitty_bid_policy() {
            KittyBidPolicy::FirstCard => {
                self.autobid = Some(Bid { count: 1, id, card, epoch: 0 });
            },
            KittyBidPolicy::FirstCardOfLevelOrHighest => {
                if card.is_joker() || card.number() == Some(level) {
                    self.autobid = Some(Bid { count: 1, id, card, epoch: 0 });
                } else if self.revealed_cards >= self.kitty.len() - 1 {
                    let highest = highest_card(Trump::NoTrump { number: level }, self.kitty.as_slice());
                    self.autobid = Some(Bid { count: 1, id, card: highest, epoch: 0 });
                }
            },
        }
        self.revealed_cards = self.revealed_cards + 1;
        Ok(MessageVariant::RevealedCardFromKitty)
    }
}


/// Cards turned face down.
fn unknowns(n: usize) -> (r: Vec<Card>)
    ensures
        r@ == Seq::new(n as nat, |i: int| Card::Unknown),
{
    let mut v: Vec<Card> = Vec::new();
    let mut i: usize = 0;
    while i < n
        invariant
            i <= n,
            v@ == Seq::new(i as nat, |k: int| Card::Unknown),
        decreases n - i,
    {
        v.push(Card::Unknown);
        i += 1;
        assert(v@ =~= Seq::new(i as nat, |k: int| Card::Unknown));
    }
    v
}

impl DrawPhase {
    /// What the player may see: the others' hands, the deck and the kitty
    /// cards not yet revealed are turned face down.
    pub open spec fn redacted_for(self, player: PlayerID, after: DrawPhase) -> bool {
        &&& after.hands_spec().wf()
        &&& forall|x: PlayerID| after.hands_spec().has_player(x) == self.hands_spec().has_player(x)
        &&& forall|x: PlayerID, c: Card| #[trigger] after.hands_spec().count(x, c) == if x == player || !self.hands_spec().has_player(x) {
                self.hands_spec().count(x, c) as int
        } else if c == Card::Unknown {
                self.hands_spec().hand_size(x)
        } else {
                0
        }
        &&& after.kitty_spec() == Seq::new(self.kitty_spec().len(), |i: int| if i < self.revealed_spec() {
                self.kitty_spec()[i]
        } else {
                Card::Unknown
        })
        &&& after.deck_spec() == Seq::new(self.deck_spec().len(), |i: int| Card::Unknown)
        &&& after.propagated_spec() == self.propagated_spec()
        &&& after.bids_spec() == self.bids_spec()
        &&& after.position_spec() == self.position_spec()
        &&& after.revealed_spec() == self.revealed_spec()
        &&& after.autobid_spec() == self.autobid_spec()
        &&& after.num_decks_spec() == self.num_decks_spec()
        &&& after.game_mode_spec() == self.game_mode_spec()
        &&& after.level_spec() == self.level_spec()
    }

    /// Hides from the phase what the player may not see (see
    /// `redacted_for`).
    pub fn destructively_redact_for_player(&mut self, player: PlayerID)
        requires
            old(self).hands_spec().wf(),
            forall|x: PlayerID| old(self).hands_spec().has_player(x) ==> #[trigger] old(self).hands_spec().hand_size(x) <= usize::MAX,
            old(self).revealed_spec() <= old(self).kitty_spec().len(),
        ensures
            old(self).redacted_for(player, *final(self)),
    {
        self.hands.destructively_redact_except_for_player(player);
        let mut i: usize = self.revealed_cards;
        let ghost kitty0 = self.kitty@;
        let ghost h1 = self.hands;
        while i < self.kitty.len()
            invariant
                self.hands == h1,
                self.propagated == old(self).propagated,
                self.bids == old(self).bids,
                self.position == old(self).position,
                self.deck == old(self).deck,
                self.autobid == old(self).autobid,
                self.num_decks == old(self).num_decks,
                self.game_mode == old(self).game_mode,
                self.level == old(self).level,
                old(self).revealed_spec() <= i <= self.kitty@.len() == kitty0.len(),
                self.revealed_cards == old(self).revealed_spec(),
                forall|k: int| 0 <= k < self.kitty@.len() ==> #[trigger] self.kitty@[k] == (if k < self.revealed_cards || k >= i {
                    kitty0[k]
                } else {
                    Card::Unknown
                }),
            decreases self.kitty.len() - i,
        {
            self.kitty.set(i, Card::Unknown);
            i += 1;
        }
        proof {
            assert(self.kitty@ =~= Seq::new(kitty0.len(), |k: int| if k < self.revealed_cards { kitty0[k] } else { Card::Unknown }));
        }
        self.deck = unknowns(self.deck.len());
    }
}

} // verus!
