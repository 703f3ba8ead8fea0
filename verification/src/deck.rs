//! Which cards make up a deck, and how many points a deck holds.

use vstd::prelude::*;

use crate::types::{full_deck, full_deck_at, full_deck_suit, num_at, num_index, Card, Number, Suit};

verus! {

/// A deck description: one full deck, less any excluded jokers and every
/// number below `min`.
#[derive(Debug, Copy, Clone, PartialEq, Eq, Structural)]
pub struct Deck {
    pub exclude_small_joker: bool,
    pub exclude_big_joker: bool,
    pub min: Number,
}

pub open spec fn deck_includes_number(d: Deck, n: Number) -> bool {
    num_index(n) >= num_index(d.min)
}

pub open spec fn deck_includes_card(d: Deck, c: Card) -> bool {
    match c {
        Card::BigJoker => !d.exclude_big_joker,
        Card::SmallJoker => !d.exclude_small_joker,
        Card::Suited { number, .. } => deck_includes_number(d, number),
        Card::Unknown => true,
    }
}

/// The point total of a deck: four fives, four tens and four kings, each only
/// when that number is in the deck.
pub open spec fn deck_points(d: Deck) -> int {
    (if deck_includes_number(d, Number::Five) { 20int } else { 0int }) + (if deck_includes_number(
        d,
        Number::Ten,
    ) {
        40int
    } else {
        0int
    }) + (if deck_includes_number(d, Number::King) { 40int } else { 0int })
}

/// The number of cards in a deck.
pub open spec fn deck_len(d: Deck) -> int {
    54 - (if d.exclude_big_joker { 1int } else { 0int }) - (if d.exclude_small_joker { 1int } else { 0int }) - 4 * num_index(d.min)
}

/// The cards of a deck, in the order of the full deck.
pub open spec fn deck_cards(d: Deck) -> Seq<Card> {
    full_deck().filter(|c: Card| deck_includes_card(d, c))
}

impl Default for Deck {
    fn default() -> (r: Deck)
        ensures
            r == (Deck { exclude_small_joker: false, exclude_big_joker: false, min: Number::Two }),
    {
        Deck { exclude_small_joker: false, exclude_big_joker: false, min: Number::Two }
    }
}

/// The card at a position of the full deck.
pub fn full_deck_card(i: usize) -> (r: Card)
    requires
        i < 54,
    ensures
        r == full_deck_at(i as int),
{
    if i < 52 {
        let block = i / 13;
        let suit = if block == 0 {
            Suit::Diamonds
        } else if block == 1 {
            Suit::Clubs
        } else if block == 2 {
            Suit::Hearts
        } else {
            Suit::Spades
        };
        assert(suit == full_deck_suit(i as int / 13));
        Card::Suited { suit, number: Number::from_index((12 - i % 13) as u8) }
    } else if i == 52 {
        Card::SmallJoker
    } else {
        Card::BigJoker
    }
}

impl Deck {
    pub fn includes_number(&self, number: Number) -> (r: bool)
        ensures
            r == deck_includes_number(*self, number),
    {
        number.index() >= self.min.index()
    }

    pub fn includes_card(&self, card: Card) -> (r: bool)
        ensures
            r == deck_includes_card(*self, card),
    {
        match card {
            Card::BigJoker => !self.exclude_big_joker,
            Card::SmallJoker => !self.exclude_small_joker,
            Card::Suited { number, .. } => self.includes_number(number),
            Card::Unknown => true,
        }
    }

    pub fn points(&self) -> (r: usize)
        ensures
            r == deck_points(*self),
    {
        let mut pts: usize = 0;
        if self.includes_number(Number::Five) {
            pts += 5 * 4;
        }
        if self.includes_number(Number::Ten) {
            pts += 10 * 4;
        }
        if self.includes_number(Number::King) {
            pts += 10 * 4;
        }
        pts
    }

    pub fn len(&self) -> (r: usize)
        ensures
            r == deck_len(*self),
    {
        let mut cards: usize = 54;
        if self.exclude_big_joker {
            cards -= 1;
        }
        if self.exclude_small_joker {
            cards -= 1;
        }
        let mut n = Number::Two;
        while n.index() < self.min.index()
            invariant
                num_index(n) <= num_index(self.min),
                cards == 54 - (if self.exclude_big_joker { 1int } else { 0int }) - (if self.exclude_small_joker { 1int } else { 0int }) - 4 * num_index(n),
            decreases 12 - num_index(n),
        {
            cards -= 4;
            match n.successor() {
                Some(nn) => {
                    n = nn;
                },
                None => {
                    assert(false);
                },
            }
        }
        cards
    }

    /// The cards of this deck, in the order of the full deck.
    pub fn cards(&self) -> (r: Vec<Card>)
        ensures
            r@ == deck_cards(*self),
    {
        let ghost pred = |c: Card| deck_includes_card(*self, c);
        let mut out: Vec<Card> = Vec::new();
        let mut i: usize = 0;
        while i < 54
            invariant
                i <= 54,
                pred == (|c: Card| deck_includes_card(*self, c)),
                out@ == full_deck().subrange(0, i as int).filter(pred),
            decreases 54 - i,
        {
            let card = full_deck_card(i);
            proof {
                let next = full_deck().subrange(0, i + 1);
                assert(next.drop_last() =~= full_deck().subrange(0, i as int));
                assert(next.last() == card);
            }
            let ghost prev = out@;
            if self.includes_card(card) {
                out.push(card);
            }
            proof {
                let next = full_deck().subrange(0, i + 1);
                reveal(Seq::filter);
                assert(next.len() > 0);
                assert(next.filter(pred) == (if pred(next.last()) {
                    next.drop_last().filter(pred).push(next.last())
                } else {
                    next.drop_last().filter(pred)
                }));
                assert(out@ == next.filter(pred));
            }
            i += 1;
        }
        assert(full_deck().subrange(0, 54) =~= full_deck());
        out
    }

    /// An iterator over the cards of this deck.
    pub fn iter(&self) -> (r: DeckIterator)
        ensures
            r.deck() == *self,
            r.remaining() == deck_cards(*self),
    {
        assert(full_deck().subrange(0, 54) =~= full_deck());
        DeckIterator { deck: *self, index: 0 }
    }
}

/// Walks through the cards of a deck.
pub struct DeckIterator {
    deck: Deck,
    index: usize,
}

impl DeckIterator {
    pub closed spec fn deck(self) -> Deck {
        self.deck
    }

    /// The cards that are still to come.
    pub closed spec fn remaining(self) -> Seq<Card> {
        if self.index <= 54 {
            full_deck().subrange(self.index as int, 54).filter(|c: Card| deck_includes_card(self.deck, c))
        } else {
            Seq::empty()
        }
    }

    /// The next card of the deck, if any is left.
    pub fn next(&mut self) -> (r: Option<Card>)
        ensures
            final(self).deck() == old(self).deck(),
            old(self).remaining().len() == 0 ==> r is None && final(self).remaining().len() == 0,
            old(self).remaining().len() > 0 ==> r == Some(old(self).remaining()[0])
                && final(self).remaining() == old(self).remaining().drop_first(),
    {
        let ghost pred = |c: Card| deck_includes_card(self.deck, c);
        if self.index > 54 {
            return None;
        }
        loop
            invariant
                self.index <= 54,
                self.deck == old(self).deck,
                pred == (|c: Card| deck_includes_card(self.deck, c)),
                self.remaining() == old(self).remaining(),
            decreases 54 - self.index,
        {
            if self.index >= 54 {
                proof {
                    assert(full_deck().subrange(54, 54) =~= Seq::<Card>::empty());
                }
                return None;
            }
            let card = full_deck_card(self.index);
            let ghost rest = full_deck().subrange(self.index + 1, 54);
            proof {
                assert(full_deck().subrange(self.index as int, 54) =~= seq![card] + rest);
                rest.lemma_filter_prepend(card, pred);
            }
            self.index += 1;
            if self.deck.includes_card(card) {
                proof {
                    assert(old(self).remaining() =~= seq![card] + rest.filter(pred));
                    assert((seq![card] + rest.filter(pred)).drop_first() =~= rest.filter(pred));
                }
                return Some(card);
            }
            proof {
                assert(old(self).remaining() =~= rest.filter(pred));
            }
        }
    }
}

proof fn lemma_filter_keeps_all(s: Seq<Card>, pred: spec_fn(Card) -> bool)
    requires
        forall|i: int| 0 <= i < s.len() ==> pred(#[trigger] s[i]),
    ensures
        s.filter(pred) == s,
    decreases s.len(),
{
    reveal(Seq::filter);
    if s.len() > 0 {
        lemma_filter_keeps_all(s.drop_last(), pred);
        assert(s.drop_last().push(s.last()) =~= s);
    }
}

/// A full deck holds every card of the full deck, in order.
pub proof fn lemma_full_deck_cards(d: Deck)
    requires
        d == (Deck { exclude_small_joker: false, exclude_big_joker: false, min: Number::Two }),
    ensures
        deck_cards(d) == full_deck(),
        deck_cards(d).len() == 54,
{
    lemma_filter_keeps_all(full_deck(), |c: Card| deck_includes_card(d, c));
}

} // verus!
