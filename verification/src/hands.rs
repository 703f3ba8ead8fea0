//! The hands of the players: how many copies of each card every player holds.

use vstd::prelude::*;

use crate::types::{occurrences, Card, CardCounts, PlayerID, Trump};

verus! {

/// Why a change to the hands was refused.
#[derive(Debug, Copy, Clone, PartialEq, Eq, Structural)]
pub enum HandError {
    /// The player has no hand.
    NotAPlayer,
    /// The player does not hold all of the cards.
    NotEnoughCards,
}

#[derive(Debug)]
pub struct Hands {
    players: Vec<PlayerID>,
    hands: Vec<CardCounts>,
    trump: Option<Trump>,
}

impl Clone for Hands {
    fn clone(&self) -> (r: Self)
        ensures
            r.wf() == self.wf(),
            r.trump_spec() == self.trump_spec(),
            forall|id: PlayerID| r.has_player(id) == self.has_player(id),
            forall|id: PlayerID, c: Card| r.count(id, c) == self.count(id, c),
    {
        let players = self.players.clone();
        let hands = self.hands.clone();
        assert(players@ =~= self.players@);
        assert(hands@ =~= self.hands@);
        Hands { players, hands, trump: self.trump }
    }
}

impl Hands {
    /// Every player has exactly one hand.
    pub closed spec fn wf(self) -> bool {
        &&& self.players.len() == self.hands.len()
        &&& self.players@.no_duplicates()
    }

    pub closed spec fn has_player(self, id: PlayerID) -> bool {
        self.players@.contains(id)
    }

    closed spec fn index_of(self, id: PlayerID) -> int {
        choose|i: int| 0 <= i < self.players.len() && self.players@[i] == id
    }

    /// How many copies of a card a player holds (none for a non-player).
    pub closed spec fn count(self, id: PlayerID, c: Card) -> nat {
        if self.has_player(id) {
            self.hands@[self.index_of(id)].count(c)
        } else {
            0
        }
    }

    /// The counts of a player's hand.
    pub closed spec fn hand_of(self, id: PlayerID) -> CardCounts {
        self.hands@[self.index_of(id)]
    }

    /// A player's count of a card fits a `usize`.
    pub proof fn lemma_count_bound(self, id: PlayerID, c: Card)
        ensures
            self.count(id, c) <= usize::MAX,
    {
        if self.has_player(id) {
            self.hands@[self.index_of(id)].lemma_count_bound(c);
        }
    }

    pub closed spec fn trump_spec(self) -> Option<Trump> {
        self.trump
    }

    /// Whether a player holds every card of `cards`, with multiplicity.
    pub open spec fn holds(self, id: PlayerID, cards: Seq<Card>) -> bool {
        forall|c: Card| occurrences(cards, c) <= self.count(id, c)
    }

    proof fn lemma_index_of(self, i: int)
        requires
            self.wf(),
            0 <= i < self.players.len(),
        ensures
            self.has_player(self.players@[i]),
            self.index_of(self.players@[i]) == i,
    {
        let id = self.players@[i];
        assert(self.players@[i] == id);
        let j = self.index_of(id);
        assert(0 <= j < self.players.len() && self.players@[j] == id);
    }

    fn position(&self, id: PlayerID) -> (r: Option<usize>)
        requires
            self.wf(),
        ensures
            r matches Some(i) ==> i < self.players.len() && self.players@[i as int] == id && self.index_of(id) == i
                && self.has_player(id),
            r is None ==> !self.has_player(id),
    {
        let mut i: usize = 0;
        while i < self.players.len()
            invariant
                self.wf(),
                i <= self.players.len(),
                forall|j: int| 0 <= j < i ==> self.players@[j] != id,
            decreases self.players.len() - i,
        {
            if self.players[i] == id {
                proof {
                    self.lemma_index_of(i as int);
                }
                return Some(i);
            }
            i += 1;
        }
        None
    }

    /// Empty hands for the given players; a player listed twice gets one hand.
    pub fn new(players: Vec<PlayerID>) -> (r: Hands)
        ensures
            r.wf(),
            forall|id: PlayerID| r.has_player(id) <==> players@.contains(id),
            forall|id: PlayerID, c: Card| r.count(id, c) == 0,
            r.trump_spec() is None,
    {
        let mut h = Hands { players: Vec::new(), hands: Vec::new(), trump: None };
        let mut i: usize = 0;
        while i < players.len()
            invariant
                i <= players.len(),
                h.wf(),
                h.trump is None,
                forall|id: PlayerID| h.has_player(id) <==> exists|j: int| 0 <= j < i && players@[j] == id,
                forall|j: int| 0 <= j < h.hands.len() ==> forall|c: Card| (#[trigger] h.hands@[j]).count(c) == 0,
            decreases players.len() - i,
        {
            let id = players[i];
            let found = h.position(id);
            let ghost before = h;
            if found.is_none() {
                h.players.push(id);
                h.hands.push(CardCounts::new());
                proof {
                    assert(h.players@ == before.players@.push(id));
                    assert forall|x: PlayerID| h.has_player(x) <==> (before.has_player(x) || x == id) by {
                        if h.players@.contains(x) {
                            let k = choose|k: int| 0 <= k < h.players.len() && h.players@[k] == x;
                            if k < h.players.len() - 1 {
                                assert(before.players@[k] == x);
                            }
                        }
                        if before.has_player(x) {
                            let k = choose|k: int| 0 <= k < before.players.len() && before.players@[k] == x;
                            assert(h.players@[k] == x);
                        }
                        if x == id {
                            assert(h.players@[h.players.len() - 1] == x);
                        }
                    }
                }
            }
            proof {
                assert forall|x: PlayerID| h.has_player(x) <==> exists|j: int| 0 <= j < i + 1 && players@[j] == x by {
                    if x == id {
                        assert(players@[i as int] == x);
                    }
                    if exists|j: int| 0 <= j < i + 1 && players@[j] == x {
                        let j = choose|j: int| 0 <= j < i + 1 && players@[j] == x;
                        if j < i {
                            assert(exists|j: int| 0 <= j < i && players@[j] == x);
                        }
                    }
                }
            }
            i += 1;
        }
        proof {
            assert forall|id: PlayerID| h.has_player(id) <==> players@.contains(id) by {
                if players@.contains(id) {
                    let j = choose|j: int| 0 <= j < players.len() && players@[j] == id;
                    assert(exists|j: int| 0 <= j < players.len() && players@[j] == id);
                }
            }
            assert forall|id: PlayerID, c: Card| h.count(id, c) == 0 by {
                if h.has_player(id) {
                    let k = choose|k: int| 0 <= k < h.players.len() && h.players@[k] == id;
                    h.lemma_index_of(k);
                    assert(h.hands@[h.index_of(id)].count(c) == 0);
                }
            }
        }
        h
    }

    pub fn trump(&self) -> (r: Option<Trump>)
        ensures
            r == self.trump_spec(),
    {
        self.trump
    }

    pub fn set_trump(&mut self, trump: Trump)
        requires
            old(self).wf(),
        ensures
            final(self).wf(),
            final(self).trump_spec() == Some(trump),
            forall|id: PlayerID| final(self).has_player(id) == old(self).has_player(id),
            forall|id: PlayerID, c: Card| final(self).count(id, c) == old(self).count(id, c),
    {
        self.trump = Some(trump);
    }

    pub fn is_player(&self, id: PlayerID) -> (r: bool)
        requires
            self.wf(),
        ensures
            r == self.has_player(id),
    {
        self.position(id).is_some()
    }

    /// The hand of a player.
    pub fn get(&self, id: PlayerID) -> (r: Result<&CardCounts, HandError>)
        requires
            self.wf(),
        ensures
            r is Ok <==> self.has_player(id),
            r matches Err(e) ==> e == HandError::NotAPlayer,
            r matches Ok(h) ==> forall|c: Card| h.count(c) == self.count(id, c),
            r matches Ok(h) ==> *h == self.hand_of(id),
    {
        match self.position(id) {
            Some(i) => Ok(&self.hands[i]),
            None => Err(HandError::NotAPlayer),
        }
    }

    /// The hand of a player, if the player has one.
    pub fn counts(&self, id: PlayerID) -> (r: Option<&CardCounts>)
        requires
            self.wf(),
        ensures
            r is Some <==> self.has_player(id),
            r matches Some(h) ==> forall|c: Card| h.count(c) == self.count(id, c),
            r is None ==> forall|c: Card| self.count(id, c) == 0,
    {
        match self.position(id) {
            Some(i) => Some(&self.hands[i]),
            None => None,
        }
    }

    /// Checks that a player holds all of the given cards.
    pub fn contains(&self, id: PlayerID, cards: &[Card]) -> (r: Result<(), HandError>)
        requires
            self.wf(),
        ensures
            r is Ok <==> self.has_player(id) && self.holds(id, cards@),
            r == Err::<(), HandError>(HandError::NotAPlayer) <==> !self.has_player(id),
            r == Err::<(), HandError>(HandError::NotEnoughCards) <==> self.has_player(id) && !self.holds(id, cards@),
    {
        let hand = match self.get(id) {
            Ok(h) => h,
            Err(e) => {
                return Err(e);
            },
        };
        let needed = Card::count_slice(cards);
        let mut i: usize = 0;
        while i < 55
            invariant
                i <= 55,
                self.has_player(id),
                forall|c: Card| hand.count(c) == self.count(id, c),
                forall|c: Card| needed.count(c) == occurrences(cards@, c),
                forall|c: Card| crate::types::card_slot(c) < i ==> occurrences(cards@, c) <= self.count(id, c),
            decreases 55 - i,
        {
            let c = Card::at_slot(i);
            if needed.get(c) > hand.get(c) {
                return Err(HandError::NotEnoughCards);
            }
            i += 1;
        }
        proof {
            assert forall|c: Card| occurrences(cards@, c) <= self.count(id, c) by {
                crate::types::lemma_slot_roundtrip(c);
            }
        }
        Ok(())
    }

    /// Whether no player holds any card.
    pub open spec fn all_empty(self) -> bool {
        forall|id: PlayerID, c: Card| self.count(id, c) == 0
    }

    /// Whether every hand is empty.
    pub fn is_empty(&self) -> (r: bool)
        requires
            self.wf(),
        ensures
            r == self.all_empty(),
    {
        broadcast use vstd::seq_lib::group_to_multiset_ensures, vstd::multiset::group_multiset_axioms;
        let mut i: usize = 0;
        while i < self.hands.len()
            invariant
                self.wf(),
                i <= self.hands.len(),
                forall|j: int, c: Card| 0 <= j < i ==> #[trigger] self.hands@[j].count(c) == 0,
            decreases self.hands.len() - i,
        {
            let cards = Card::cards(&self.hands[i]);
            if cards.len() != 0 {
                proof {
                    let c = cards@[0];
                    cards@.to_multiset_ensures();
                    assert(cards@.contains(c));
                    assert(cards@.to_multiset().count(c) > 0);
                    self.lemma_index_of(i as int);
                    assert(self.count(self.players@[i as int], c) > 0);
                }
                return false;
            }
            proof {
                assert forall|c: Card| self.hands@[i as int].count(c) == 0 by {
                    cards@.to_multiset_ensures();
                    assert(!cards@.contains(c));
                    assert(occurrences(cards@, c) == 0);
                }
            }
            i += 1;
        }
        proof {
            assert forall|id: PlayerID, c: Card| self.count(id, c) == 0 by {
                if self.has_player(id) {
                    let j = self.index_of(id);
                    assert(0 <= j < self.players.len() && self.players@[j] == id);
                }
            }
        }
        true
    }

    /// Gives cards to a player.
    pub fn add(&mut self, id: PlayerID, cards: Vec<Card>) -> (r: Result<(), HandError>)
        requires
            old(self).wf(),
            forall|c: Card| old(self).count(id, c) + occurrences(cards@, c) <= usize::MAX,
        ensures
            final(self).wf(),
            final(self).trump_spec() == old(self).trump_spec(),
            forall|x: PlayerID| final(self).has_player(x) == old(self).has_player(x),
            r is Ok <==> old(self).has_player(id),
            r matches Err(e) ==> e == HandError::NotAPlayer,
            forall|x: PlayerID, c: Card| final(self).count(x, c) == old(self).count(x, c) + (if r is Ok && x == id {
                occurrences(cards@, c) as int
            } else {
                0int
            }),
    {
        let i = match self.position(id) {
            Some(i) => i,
            None => {
                return Err(HandError::NotAPlayer);
            },
        };
        let added = Card::count(cards);
        let mut hand = self.hands[i];
        let mut k: usize = 0;
        while k < 55
            invariant
                k <= 55,
                self == old(self),
                i < self.players.len(),
                self.index_of(id) == i,
                self.has_player(id),
                forall|c: Card| added.count(c) == occurrences(cards@, c),
                forall|c: Card| old(self).count(id, c) + occurrences(cards@, c) <= usize::MAX,
                forall|c: Card| #![trigger hand.count(c)] crate::types::card_slot(c) < k ==> hand.count(c) == self.hands@[i as int].count(c) + added.count(c),
                forall|c: Card| #![trigger hand.count(c)] crate::types::card_slot(c) >= k ==> hand.count(c) == self.hands@[i as int].count(c),
            decreases 55 - k,
        {
            let c = Card::at_slot(k);
            let n = added.get(c);
            proof {
                crate::types::lemma_slot_inverse(k as int);
            }
            hand.add(c, n);
            proof {
                assert forall|d: Card| crate::types::card_slot(d) < k + 1 implies #[trigger] hand.count(d) == self.hands@[i as int].count(d) + added.count(d) by {
                    crate::types::lemma_slot_roundtrip(d);
                }
            }
            k += 1;
        }
        let ghost before = *self;
        self.hands.set(i, hand);
        proof {
            assert forall|x: PlayerID, c: Card| self.count(x, c) == before.count(x, c) + (if x == id {
                occurrences(cards@, c) as int
            } else {
                0int
            }) by {
                crate::types::lemma_slot_roundtrip(c);
                if self.has_player(x) {
                    let j = self.index_of(x);
                    assert(0 <= j < self.players.len() && self.players@[j] == x);
                }
            }
        }
        Ok(())
    }

    /// Takes cards away from a player, if the player holds all of them; on
    /// error nothing changes.
    pub fn remove(&mut self, id: PlayerID, cards: Vec<Card>) -> (r: Result<(), HandError>)
        requires
            old(self).wf(),
        ensures
            final(self).wf(),
            final(self).trump_spec() == old(self).trump_spec(),
            forall|x: PlayerID| final(self).has_player(x) == old(self).has_player(x),
            r is Ok <==> old(self).has_player(id) && old(self).holds(id, cards@),
            r == Err::<(), HandError>(HandError::NotAPlayer) <==> !old(self).has_player(id),
            r is Err ==> *final(self) == *old(self),
            forall|x: PlayerID, c: Card| final(self).count(x, c) + (if r is Ok && x == id {
                occurrences(cards@, c) as int
            } else {
                0int
            }) == old(self).count(x, c),
    {
        match self.contains(id, cards.as_slice()) {
            Ok(()) => {},
            Err(e) => {
                return Err(e);
            },
        }
        let i = match self.position(id) {
            Some(i) => i,
            None => {
                return Err(HandError::NotAPlayer);
            },
        };
        let taken = Card::count(cards);
        let mut hand = self.hands[i];
        let mut k: usize = 0;
        while k < 55
            invariant
                k <= 55,
                self == old(self),
                i < self.players.len(),
                self.index_of(id) == i,
                self.has_player(id),
                self.holds(id, cards@),
                forall|c: Card| taken.count(c) == occurrences(cards@, c),
                forall|c: Card| #![trigger hand.count(c)] crate::types::card_slot(c) < k ==> hand.count(c) + taken.count(c) == self.hands@[i as int].count(c),
                forall|c: Card| #![trigger hand.count(c)] crate::types::card_slot(c) >= k ==> hand.count(c) == self.hands@[i as int].count(c),
            decreases 55 - k,
        {
            let c = Card::at_slot(k);
            let n = taken.get(c);
            proof {
                crate::types::lemma_slot_inverse(k as int);
                assert(occurrences(cards@, c) <= self.count(id, c));
            }
            hand.remove(c, n);
            proof {
                assert forall|d: Card| crate::types::card_slot(d) < k + 1 implies #[trigger] hand.count(d) + taken.count(d) == self.hands@[i as int].count(d) by {
                    crate::types::lemma_slot_roundtrip(d);
                }
            }
            k += 1;
        }
        let ghost before = *self;
        self.hands.set(i, hand);
        proof {
            assert forall|x: PlayerID, c: Card| self.count(x, c) + (if x == id {
                occurrences(cards@, c) as int
            } else {
                0int
            }) == before.count(x, c) by {
                crate::types::lemma_slot_roundtrip(c);
                if self.has_player(x) {
                    let j = self.index_of(x);
                    assert(0 <= j < self.players.len() && self.players@[j] == x);
                }
            }
        }
        Ok(())
    }
}

/// Taking back from a player the cards just given to them succeeds and
/// leaves every hand as it was.
pub proof fn lemma_remove_undoes_add(h0: Hands, h1: Hands, h2: Hands, id: PlayerID, cards: Seq<Card>)
    requires
        forall|x: PlayerID, c: Card| h1.count(x, c) == h0.count(x, c) + (if x == id { occurrences(cards, c) as int } else { 0int }),
        forall|x: PlayerID, c: Card| h2.count(x, c) + (if x == id { occurrences(cards, c) as int } else { 0int }) == h1.count(x, c),
    ensures
        h1.holds(id, cards),
        forall|x: PlayerID, c: Card| h2.count(x, c) == h0.count(x, c),
{
    assert forall|c: Card| occurrences(cards, c) <= h1.count(id, c) by {
        assert(h1.count(id, c) == h0.count(id, c) + occurrences(cards, c));
    }
    assert forall|x: PlayerID, c: Card| h2.count(x, c) == h0.count(x, c) by {
        assert(h1.count(x, c) == h0.count(x, c) + (if x == id { occurrences(cards, c) as int } else { 0int }));
        assert(h2.count(x, c) + (if x == id { occurrences(cards, c) as int } else { 0int }) == h1.count(x, c));
    }
}


impl Hands {
    /// How many cards a player holds.
    pub closed spec fn hand_size(self, id: PlayerID) -> int {
        self.hand_of(id).total()
    }

    /// Hides every hand but the player's: each other player holds as many
    /// unknown cards as they held cards.
    pub fn destructively_redact_except_for_player(&mut self, id: PlayerID)
        requires
            old(self).wf(),
            forall|x: PlayerID| old(self).has_player(x) ==> #[trigger] old(self).hand_size(x) <= usize::MAX,
        ensures
            final(self).wf(),
            final(self).trump_spec() == old(self).trump_spec(),
            forall|x: PlayerID| final(self).has_player(x) == old(self).has_player(x),
            forall|x: PlayerID, c: Card| #[trigger] final(self).count(x, c) == if x == id || !old(self).has_player(x) {
                old(self).count(x, c) as int
            } else if c == Card::Unknown {
                old(self).hand_size(x)
            } else {
                0
            },
    {
        let ghost start = *self;
        let mut i: usize = 0;
        while i < self.players.len()
            invariant
                i <= self.players.len(),
                start.wf(),
                self.players == start.players,
                self.trump == start.trump,
                self.hands@.len() == start.hands@.len(),
                forall|x: PlayerID| start.has_player(x) ==> #[trigger] start.hand_size(x) <= usize::MAX,
                forall|k: int| 0 <= k < i ==> #[trigger] self.hands@[k] == (if start.players@[k] == id {
                    start.hands@[k]
                } else {
                    self.hands@[k]
                }),
                forall|k: int, c: Card| 0 <= k < i && start.players@[k] != id ==> #[trigger] self.hands@[k].count(c) == (if c == Card::Unknown {
                    start.hands@[k].total()
                } else {
                    0
                }),
                forall|k: int| i <= k < self.hands@.len() ==> #[trigger] self.hands@[k] == start.hands@[k],
            decreases self.players.len() - i,
        {
            if self.players[i] != id {
                proof {
                    let x = start.players@[i as int];
                    assert(start.has_player(x));
                    let j = start.index_of(x);
                    assert(start.players@[j] == x);
                    assert(j == i) by {
                        if j != i {
                            assert(start.players@.no_duplicates());
                        }
                    }
                    assert(start.hand_size(x) <= usize::MAX);
                }
                let total = self.hands[i].total_count();
                let mut h = CardCounts::new();
                h.add(Card::Unknown, total);
                self.hands.set(i, h);
            }
            i += 1;
        }
        proof {
            assert forall|x: PlayerID, c: Card| #[trigger] self.count(x, c) == if x == id || !start.has_player(x) {
                start.count(x, c) as int
            } else if c == Card::Unknown {
                start.hand_size(x)
            } else {
                0
            } by {
                if start.has_player(x) {
                    let j = start.index_of(x);
                    assert(self.index_of(x) == j);
                }
            }
        }
    }
}

} // verus!
