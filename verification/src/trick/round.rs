//! A trick being played: whose turn it is, what has been played, and who is
//! winning.

use vstd::prelude::*;

use crate::hands::{HandError, Hands};
use crate::message::MessageVariant;
use crate::ordered_card::OrderedCard;
use crate::trick::{
    all_in_suit, count_in_suit, held_in_suit, tractor_from, unit_first, unit_size, unit_use, units_size, units_use, unit_valid,
    unit_sizable, members_use, unit_shape, unit_last, legal_play, follows_format, TrickDrawPolicy, TrickError, TrickFormat, TrickUnit, ThrowEvaluationPolicy, Units,
};
use crate::types::{card_points, effective_key, effective_suit_of, occurrences, total_key, Card, CardCounts, EffectiveSuit, PlayerID, Trump};

verus! {

/// Whether cards are listed in increasing trump order.
pub open spec fn cards_sorted(t: Trump, s: Seq<Card>) -> bool {
    forall|i: int, j: int| 0 <= i < j < s.len() ==> total_key(t, #[trigger] s[i]) <= total_key(t, #[trigger] s[j])
}

/// The cards in increasing trump order.
pub fn sort_cards(trump: Trump, cards: Vec<Card>) -> (r: Vec<Card>)
    ensures
        cards_sorted(trump, r@),
        r@.to_multiset() == cards@.to_multiset(),
        r.len() == cards.len(),
{
    broadcast use vstd::seq_lib::group_to_multiset_ensures;
    let mut out: Vec<Card> = Vec::new();
    let mut i: usize = 0;
    while i < cards.len()
        invariant
            i <= cards.len(),
            out.len() == i,
            cards_sorted(trump, out@),
            out@.to_multiset() == cards@.subrange(0, i as int).to_multiset(),
        decreases cards.len() - i,
    {
        let c = cards[i];
        let k = trump.total_order_key(c);
        let mut pos: usize = 0;
        while pos < out.len() && trump.total_order_key(out[pos]) <= k
            invariant
                pos <= out.len(),
                k == total_key(trump, c),
                forall|q: int| 0 <= q < pos ==> total_key(trump, #[trigger] out@[q]) <= k,
            decreases out.len() - pos,
        {
            pos += 1;
        }
        let ghost before = out@;
        out.insert(pos, c);
        proof {
            vstd::seq_lib::to_multiset_insert(before, pos as int, c);
            assert(cards@.subrange(0, i + 1) =~= cards@.subrange(0, i as int).push(c));
            cards@.subrange(0, i as int).to_multiset_ensures();
            assert(out@.to_multiset() == before.to_multiset().insert(c));
            assert(cards@.subrange(0, i + 1).to_multiset() == cards@.subrange(0, i as int).to_multiset().insert(c));
            before.insert_ensures(pos as int, c);
            assert forall|a: int, b: int| 0 <= a < b < out.len() implies total_key(trump, #[trigger] out@[a]) <= total_key(trump, #[trigger] out@[b]) by {
                if b < pos {
                    assert(out@[a] == before[a] && out@[b] == before[b]);
                } else if b == pos {
                    assert(out@[a] == before[a]);
                } else if a < pos {
                    assert(out@[a] == before[a] && out@[b] == before[b - 1]);
                    assert(total_key(trump, before[pos as int]) > k);
                } else if a == pos {
                    assert(out@[b] == before[b - 1]);
                    assert(total_key(trump, before[pos as int]) > k);
                } else {
                    assert(out@[a] == before[a - 1] && out@[b] == before[b - 1]);
                }
            }
        }
        i += 1;
    }
    assert(cards@.subrange(0, cards.len() as int) =~= cards@);
    out
}

/// The cards one player put down in a trick.
#[derive(Debug)]
pub struct PlayedCards {
    pub id: PlayerID,
    /// The cards that count in the trick.
    pub cards: Vec<Card>,
    /// The cards of a failed throw that went back to the player's hand.
    pub bad_throw_cards: Vec<Card>,
    /// The player whose cards beat the failed throw, if shown.
    pub better_player: Option<PlayerID>,
}

/// A request to play cards in a trick.
pub struct PlayCards<'b, 'c> {
    pub id: PlayerID,
    pub cards: &'b [Card],
    pub trick_draw_policy: TrickDrawPolicy,
    pub throw_eval_policy: ThrowEvaluationPolicy,
    pub format_hint: Option<&'c [TrickUnit]>,
    pub hide_throw_halting_player: bool,
}

/// How a completed trick ended.
#[derive(Debug)]
pub struct TrickEnded {
    pub winner: PlayerID,
    /// The point cards played in the trick.
    pub points: Vec<Card>,
    pub largest_trick_unit_size: usize,
    pub failed_throw_size: usize,
}

/// A format whose units are valid under its trump, with between one and
/// `usize::MAX` cards in all.
pub open spec fn format_wf(tf: TrickFormat) -> bool {
    &&& 1 <= units_size(tf.units@) <= usize::MAX
    &&& forall|i: int| 0 <= i < tf.units@.len() ==> unit_valid(tf.trump, #[trigger] tf.units@[i])
}

#[derive(Debug)]
pub struct Trick {
    player_queue: Vec<PlayerID>,
    played_cards: Vec<PlayedCards>,
    played_card_mappings: Vec<Option<Units>>,
    current_winner: Option<PlayerID>,
    trick_format: Option<TrickFormat>,
    trump: Trump,
}

impl Trick {
    /// The players still to play, in order.
    pub closed spec fn queue(self) -> Seq<PlayerID> {
        self.player_queue@
    }

    /// What has been played so far, in order.
    pub closed spec fn plays(self) -> Seq<PlayedCards> {
        self.played_cards@
    }

    /// The format, set by the first play.
    pub closed spec fn format(self) -> Option<TrickFormat> {
        self.trick_format
    }

    pub closed spec fn trump_spec(self) -> Trump {
        self.trump
    }

    /// Who is winning the trick so far.
    pub closed spec fn winning(self) -> Option<PlayerID> {
        self.current_winner
    }

    /// The format exists exactly when something was played, follows the
    /// trick's trump, and every play holds at least one card.
    pub closed spec fn wf(self) -> bool {
        &&& self.played_cards.len() == self.played_card_mappings.len()
        &&& (self.trick_format is Some <==> self.played_cards.len() > 0)
        &&& self.trick_format matches Some(tf) ==> tf.trump == self.trump && format_wf(tf)
        &&& forall|i: int| 0 <= i < self.played_cards.len() ==> (#[trigger] self.played_cards@[i]).cards.len() > 0
        &&& (self.current_winner is Some <==> self.played_cards.len() > 0)
        &&& self.current_winner matches Some(w) ==> exists|k: int| 0 <= k < self.played_cards.len() && (#[trigger] self.played_cards@[k]).id == w
        &&& self.trick_format matches Some(tf) ==> (one_card_lead(tf) ==> self.current_winner
            == Some(self.played_cards@[one_card_winner(tf, self.played_cards@, self.played_cards.len() as int)].id))
        &&& self.trick_format matches Some(tf) ==> (self.current_winner matches Some(w) && exists|k: int| 0 <= k < self.played_cards.len()
            && (#[trigger] self.played_cards@[k]).id == w && (k == 0 || follows_format(tf, self.played_cards@[k].cards@)))
        &&& self.trick_format matches Some(tf) ==> ((forall|k: int| 1 <= k < self.played_cards.len()
            ==> !follows_format(tf, (#[trigger] self.played_cards@[k]).cards@)) ==> self.current_winner == Some(self.played_cards@[0].id))
    }

    /// What well-formedness gives callers: a format exactly when something
    /// was played, following the trick's trump and holding between one and
    /// `usize::MAX` cards; a winner exactly when something was played, who
    /// made one of the plays; no empty play.
    pub proof fn lemma_wf(self)
        requires
            self.wf(),
        ensures
            self.format() is Some <==> self.plays().len() > 0,
            self.format() matches Some(tf) ==> tf.trump == self.trump_spec() && format_wf(tf),
            self.winning() is Some <==> self.plays().len() > 0,
            self.winning() matches Some(w) ==> exists|k: int| 0 <= k < self.plays().len() && (#[trigger] self.plays()[k]).id == w,
            forall|i: int| 0 <= i < self.plays().len() ==> (#[trigger] self.plays()[i]).cards.len() > 0,
            self.format() matches Some(tf) ==> (one_card_lead(tf) ==> self.winning()
                == Some(self.plays()[one_card_winner(tf, self.plays(), self.plays().len() as int)].id)),
            self.format() matches Some(tf) ==> (self.winning() matches Some(w) && exists|k: int| 0 <= k < self.plays().len()
                && (#[trigger] self.plays()[k]).id == w && (k == 0 || follows_format(tf, self.plays()[k].cards@))),
            self.format() matches Some(tf) ==> ((forall|k: int| 1 <= k < self.plays().len()
                ==> !follows_format(tf, (#[trigger] self.plays()[k]).cards@)) ==> self.winning() == Some(self.plays()[0].id)),
    {
        assert forall|i: int| 0 <= i < self.plays().len() implies (#[trigger] self.plays()[i]).cards.len() > 0 by {
            assert(self.plays()[i] == self.played_cards@[i]);
        }
        if self.winning() is Some {
            let w = self.winning()->0;
            let k = choose|k: int| 0 <= k < self.played_cards.len() && (#[trigger] self.played_cards@[k]).id == w;
            assert(self.plays()[k].id == w);
        }
    }

    /// A trick that the given players will play in order.
    pub fn new(trump: Trump, players: Vec<PlayerID>) -> (r: Trick)
        ensures
            r.wf(),
            r.queue() == players@,
            r.plays().len() == 0,
            r.format() is None,
            r.winning() is None,
            r.trump_spec() == trump,
    {
        Trick {
            played_cards: Vec::new(),
            played_card_mappings: Vec::new(),
            current_winner: None,
            trick_format: None,
            player_queue: players,
            trump,
        }
    }

    pub fn played_cards(&self) -> (r: &[PlayedCards])
        ensures
            r@ == self.plays(),
    {
        self.played_cards.as_slice()
    }

    /// The player whose turn it is.
    pub fn next_player(&self) -> (r: Option<PlayerID>)
        ensures
            r == (if self.queue().len() > 0 { Some(self.queue()[0]) } else { None::<PlayerID> }),
    {
        if self.player_queue.len() > 0 {
            Some(self.player_queue[0])
        } else {
            None
        }
    }

    /// The players still to play, in order.
    pub fn player_queue(&self) -> (r: &[PlayerID])
        ensures
            r@ == self.queue(),
    {
        self.player_queue.as_slice()
    }

    pub fn trump(&self) -> (r: Trump)
        ensures
            r == self.trump_spec(),
    {
        self.trump
    }

    pub fn trick_format(&self) -> (r: Option<&TrickFormat>)
        ensures
            r is None <==> self.format() is None,
            r matches Some(tf) ==> self.format() == Some(*tf),
    {
        self.trick_format.as_ref()
    }

    /// Checks whether a player may play the cards: they must hold them; the
    /// first play must be of one effective suit; a later play must be legal
    /// under the format. Throws are not checked here.
    pub fn can_play_cards(&self, id: PlayerID, hands: &Hands, cards: &[Card], trick_draw_policy: TrickDrawPolicy) -> (r: Result<(), TrickError>)
        requires
            self.wf(),
            hands.wf(),
        ensures
            !hands.has_player(id) ==> r == Err::<(), TrickError>(TrickError::HandError { source: HandError::NotAPlayer }),
            hands.has_player(id) && !hands.holds(id, cards@)
                ==> r == Err::<(), TrickError>(TrickError::HandError { source: HandError::NotEnoughCards }),
            hands.has_player(id) && hands.holds(id, cards@) && self.format() is None ==> (r is Ok <==> cards.len() > 0
                && all_in_suit(self.trump_spec(), cards@, effective_suit_of(self.trump_spec(), cards@[0]))),
            hands.has_player(id) && hands.holds(id, cards@) && self.format() is None && r is Err
                ==> r == Err::<(), TrickError>(TrickError::WrongNumberOfSuits),
            r == can_play_result(*self, *hands, id, cards@, trick_draw_policy),
            hands.has_player(id) && hands.holds(id, cards@) ==> (self.format() matches Some(tf) ==> {
                &&& (r is Ok || r == Err::<(), TrickError>(TrickError::IllegalPlay))
                &&& cards.len() != units_size(tf.units@) ==> r is Err
                &&& (cards.len() == units_size(tf.units@) && count_in_suit(tf.trump, cards@, tf.suit) < cards.len()) ==> (r is Ok
                    <==> count_in_suit(tf.trump, cards@, tf.suit) == held_in_suit(tf.trump, hands.hand_of(id), tf.suit, 55))
            }),
    {
        match hands.contains(id, cards) {
            Ok(()) => {},
            Err(e) => {
                return Err(TrickError::HandError { source: e });
            },
        }
        match &self.trick_format {
            Some(tf) => {
                let hand = match hands.get(id) {
                    Ok(h) => h,
                    Err(e) => {
                        return Err(TrickError::HandError { source: e });
                    },
                };
                if tf.is_legal_play(hand, cards, trick_draw_policy) {
                    Ok(())
                } else {
                    Err(TrickError::IllegalPlay)
                }
            },
            None => {
                if cards.len() > 0 && crate::trick::one_suit(self.trump, cards) {
                    Ok(())
                } else {
                    Err(TrickError::WrongNumberOfSuits)
                }
            },
        }
    }
}


/// What checking a play gives: an error of the hands when the player is
/// unknown or does not hold the cards; for a first play, whether the cards are
/// of one effective suit; for a later play, whether it is legal under the
/// format and the draw policy.
pub open spec fn can_play_result(t: Trick, hands: Hands, id: PlayerID, cards: Seq<Card>, policy: TrickDrawPolicy) -> Result<(), TrickError> {
    if !hands.has_player(id) {
        Err(TrickError::HandError { source: HandError::NotAPlayer })
    } else if !hands.holds(id, cards) {
        Err(TrickError::HandError { source: HandError::NotEnoughCards })
    } else {
        match t.format() {
            None => if cards.len() > 0 && all_in_suit(t.trump_spec(), cards, effective_suit_of(t.trump_spec(), cards[0])) {
                Ok(())
            } else {
                Err(TrickError::WrongNumberOfSuits)
            },
            Some(tf) => if legal_play(tf, hands.hand_of(id), cards, policy) {
                Ok(())
            } else {
                Err(TrickError::IllegalPlay)
            },
        }
    }
}

/// Whether a hand holds, in the given effective suit, at least `count`
/// copies of a card that is stronger than `card`.
pub open spec fn repeated_beaten(t: Trump, hand: CardCounts, suit: EffectiveSuit, count: usize, card: OrderedCard) -> bool {
    exists|c: Card| #![trigger hand.count(c)]
        effective_suit_of(t, c) == suit && hand.count(c) >= count && effective_key(t, c) > effective_key(t, card.card)
}

/// Looks for at least `count` copies of a card of the suit that beats `card`.
fn find_repeated_beater(trump: Trump, hand: &CardCounts, suit: EffectiveSuit, count: usize, card: OrderedCard) -> (r: bool)
    ensures
        r == repeated_beaten(trump, *hand, suit, count, card),
{
    let target = trump.effective_order_key(card.card);
    let mut i: usize = 0;
    while i < 55
        invariant
            i <= 55,
            target == effective_key(trump, card.card),
            forall|c: Card| #![trigger hand.count(c)] crate::types::card_slot(c) < i ==> !(effective_suit_of(trump, c) == suit
                && hand.count(c) >= count && effective_key(trump, c) > effective_key(trump, card.card)),
        decreases 55 - i,
    {
        let c = Card::at_slot(i);
        if trump.effective_suit(c) == suit && hand.get(c) >= count && trump.effective_order_key(c) > target {
            assert(hand.count(c) >= count);
            return true;
        }
        i += 1;
    }
    proof {
        assert forall|c: Card| #![trigger hand.count(c)] !(effective_suit_of(trump, c) == suit && hand.count(c) >= count
            && effective_key(trump, c) > effective_key(trump, card.card)) by {
            crate::types::lemma_slot_roundtrip(c);
        }
    }
    false
}

/// A tractor found from `c` among the counted cards, as wide as the copies
/// of `c` allow.
pub open spec fn tractor_at(t: Trump, u: TrickUnit, c: Card, in_suit: CardCounts, count: usize, len: usize) -> bool {
    tractor_from(t, u, OrderedCard { card: c, trump: t }, in_suit.count(c) as usize, in_suit, count, len)
}

/// Whether counted cards hold a tractor at least `count` wide and `len`
/// long that starts at a card no weaker than `floor`.
pub open spec fn tractor_beaten(t: Trump, in_suit: CardCounts, count: usize, len: usize, floor: Card) -> bool {
    exists|c: Card, u: TrickUnit| #[trigger] tractor_at(t, u, c, in_suit, count, len) && total_key(t, c) >= total_key(t, floor)
}

/// Looks for a tractor among the counted cards that beats a tractor of the
/// given width and length whose second card is `floor`.
fn find_tractor_beater(trump: Trump, in_suit: &CardCounts, count: usize, len: usize, floor: Card) -> (r: bool)
    requires
        count >= 2,
        len >= 2,
    ensures
        r ==> tractor_beaten(trump, *in_suit, count, len, floor),
{
    let floor_key = trump.total_order_key(floor);
    let mut i: usize = 0;
    while i < 55
        invariant
            i <= 55,
            count >= 2,
            len >= 2,
            floor_key == total_key(trump, floor),
        decreases 55 - i,
    {
        let c = Card::at_slot(i);
        if trump.total_order_key(c) >= floor_key {
            let n = in_suit.get(c);
            let found = crate::trick::find_tractors_from_start(OrderedCard { card: c, trump }, n, in_suit, count, len);
            if found.len() > 0 {
                proof {
                    let u = found@[0];
                    assert(tractor_from(trump, u, OrderedCard { card: c, trump }, n, *in_suit, count, len));
                    assert(in_suit.count(c) as usize == n);
                    assert(tractor_at(trump, u, c, *in_suit, count, len));
                }
                return true;
            }
        }
        i += 1;
    }
    false
}

pub(crate) proof fn lemma_unit_use_le(us: Seq<TrickUnit>, i: int, c: Card)
    requires
        0 <= i < us.len(),
    ensures
        unit_use(us[i], c) <= units_use(us, c),
    decreases us.len(),
{
    if i < us.len() - 1 {
        lemma_unit_use_le(us.drop_last(), i, c);
        assert(us.drop_last()[i] == us[i]);
    }
}

proof fn lemma_members_use_first(ms: Seq<OrderedCard>, w: nat)
    requires
        ms.len() > 0,
    ensures
        members_use(ms, w, ms[0].card) >= w,
    decreases ms.len(),
{
    if ms.len() > 1 {
        lemma_members_use_first(ms.drop_last(), w);
        assert(ms.drop_last()[0] == ms[0]);
    }
}

/// A valid unit takes at least one copy of its first card.
pub(crate) proof fn lemma_unit_uses_first(t: Trump, u: TrickUnit)
    requires
        unit_valid(t, u),
    ensures
        unit_use(u, unit_first(u).card) >= 1,
{
    match u {
        TrickUnit::Tractor { count, members } => {
            lemma_members_use_first(members@, count as nat);
        },
        _ => {},
    }
}

/// The cards left of `cards` once the cards of `taken` are removed, one
/// copy each.
fn remove_cards(cards: Vec<Card>, taken: &Vec<Card>) -> (r: Vec<Card>)
    requires
        forall|c: Card| occurrences(taken@, c) <= occurrences(cards@, c),
    ensures
        forall|c: Card| #[trigger] occurrences(r@, c) + occurrences(taken@, c) == occurrences(cards@, c),
{
    broadcast use vstd::seq_lib::group_to_multiset_ensures, vstd::multiset::group_multiset_axioms;
    let mut rest = cards;
    let mut i: usize = 0;
    while i < taken.len()
        invariant
            i <= taken.len(),
            forall|c: Card| occurrences(taken@, c) <= occurrences(cards@, c),
            forall|c: Card| #[trigger] occurrences(rest@, c) + occurrences(taken@.subrange(0, i as int), c) == occurrences(cards@, c),
        decreases taken.len() - i,
    {
        let card = taken[i];
        let ghost pre = taken@.subrange(0, i as int);
        proof {
            assert(taken@.subrange(0, i + 1) =~= pre.push(card));
            crate::types::lemma_occurrences_push(pre, card);
            lemma_occurrences_prefix(taken@, i + 1);
            assert(occurrences(taken@.subrange(0, i + 1), card) == occurrences(pre, card) + 1);
            assert(occurrences(rest@, card) > 0);
            rest@.to_multiset_ensures();
            assert(rest@.contains(card));
        }
        let mut pos: usize = 0;
        while rest[pos] != card
            invariant
                pos < rest.len(),
                rest@.contains(card),
                forall|q: int| 0 <= q < pos ==> rest@[q] != card,
            decreases rest.len() - pos,
        {
            proof {
                if pos + 1 >= rest.len() {
                    let w = choose|w: int| 0 <= w < rest.len() && rest@[w] == card;
                    assert(false);
                }
            }
            pos += 1;
        }
        let ghost before = rest@;
        rest.remove(pos);
        proof {
            vstd::seq_lib::to_multiset_remove(before, pos as int);
            assert(before[pos as int] == card);
            assert forall|c: Card| #[trigger] occurrences(rest@, c) + occurrences(taken@.subrange(0, i + 1), c) == occurrences(cards@, c) by {
                assert(occurrences(taken@.subrange(0, i + 1), c) == occurrences(pre, c) + (if card == c { 1nat } else { 0nat }));
                assert(occurrences(before, c) + occurrences(pre, c) == occurrences(cards@, c));
                assert(rest@.to_multiset() == before.to_multiset().remove(card));
            }
        }
        i += 1;
    }
    assert(taken@.subrange(0, taken.len() as int) =~= taken@);
    rest
}


proof fn lemma_occurrences_prefix(s: Seq<Card>, n: int)
    requires
        0 <= n <= s.len(),
    ensures
        forall|c: Card| occurrences(s.subrange(0, n), c) <= occurrences(s, c),
{
    broadcast use vstd::multiset::group_multiset_axioms;
    assert(s.subrange(0, n) + s.subrange(n, s.len() as int) =~= s);
    vstd::seq_lib::lemma_multiset_commutative(s.subrange(0, n), s.subrange(n, s.len() as int));
}


/// The effective strength of the weakest card of a unit.
pub open spec fn first_key(t: Trump, u: TrickUnit) -> int {
    effective_key(t, unit_first(u).card)
}

/// Under `All`: every unit of the play beats the matching unit of the best
/// play so far.
pub open spec fn all_beat(t: Trump, m: Seq<TrickUnit>, w: Seq<TrickUnit>) -> bool {
    forall|i: int| 0 <= i < m.len() && i < w.len() ==> #[trigger] first_key(t, m[i]) > first_key(t, w[i])
}

/// The strongest of the strongest cards of the units (the last one among
/// equals).
pub open spec fn top_card(us: Seq<TrickUnit>) -> Card
    decreases us.len(),
{
    if us.len() <= 1 {
        unit_last(us[0]).card
    } else {
        let a = top_card(us.drop_last());
        let b = unit_last(us.last()).card;
        if total_key(unit_last(us.last()).trump, b) >= total_key(unit_last(us.last()).trump, a) { b } else { a }
    }
}

/// Under `Highest`: the strongest card of the play beats that of the best
/// play so far.
pub open spec fn highest_beats(t: Trump, m: Seq<TrickUnit>, w: Seq<TrickUnit>) -> bool {
    effective_key(t, top_card(m)) > effective_key(t, top_card(w))
}

/// Under `TrickUnitLength`, whether the `i`th pair of units is compared: all
/// pairs, or only those of units longer than one card when the play is a
/// throw holding such a unit.
pub open spec fn length_considered(m: Seq<TrickUnit>, i: int) -> bool {
    let skip = m.len() > 1 && exists|j: int| 0 <= j < m.len() && unit_size(#[trigger] m[j]) > 1;
    !skip || unit_size(m[i]) > 1
}

/// Under `TrickUnitLength`, among the first `n` pairs, the pair that
/// decides: the compared pair of the largest unit that is not a tie, the
/// first one among equals.
pub open spec fn decisive(t: Trump, m: Seq<TrickUnit>, w: Seq<TrickUnit>, n: int) -> Option<int>
    decreases n,
{
    if n <= 0 {
        None
    } else {
        let d = decisive(t, m, w, n - 1);
        let i = n - 1;
        if length_considered(m, i) && first_key(t, m[i]) != first_key(t, w[i]) && (d matches Some(k) ==> unit_size(m[i]) > unit_size(m[k])) {
            Some(i)
        } else {
            d
        }
    }
}

/// Under `TrickUnitLength`: the deciding pair exists and the play wins it.
pub open spec fn length_beats(t: Trump, m: Seq<TrickUnit>, w: Seq<TrickUnit>) -> bool {
    decisive(t, m, w, if m.len() < w.len() { m.len() as int } else { w.len() as int }) matches Some(i)
        && first_key(t, m[i]) > first_key(t, w[i])
}

/// Whether a play that matched the format beats the best play so far.
pub open spec fn play_beats(t: Trump, m: Seq<TrickUnit>, w: Seq<TrickUnit>, policy: ThrowEvaluationPolicy) -> bool {
    match policy {
        ThrowEvaluationPolicy::All => all_beat(t, m, w),
        ThrowEvaluationPolicy::Highest => highest_beats(t, m, w),
        ThrowEvaluationPolicy::TrickUnitLength => length_beats(t, m, w),
    }
}

/// Units that have a first card and whose sizes fit a `usize`.
pub open spec fn units_measurable(us: Seq<TrickUnit>) -> bool {
    forall|i: int| 0 <= i < us.len() ==> unit_sizable(#[trigger] us[i])
}

fn top_card_of(us: &Units) -> (r: Card)
    requires
        us.len() >= 1,
        units_measurable(us@),
    ensures
        r == top_card(us@),
{
    let mut best = us[0].last_card();
    let mut i: usize = 1;
    assert(us@.subrange(0, 1).len() == 1);
    while i < us.len()
        invariant
            1 <= i <= us.len(),
            units_measurable(us@),
            best.card == top_card(us@.subrange(0, i as int)),
        decreases us.len() - i,
    {
        let l = us[i].last_card();
        assert(us@.subrange(0, i + 1).drop_last() =~= us@.subrange(0, i as int));
        if l.trump.total_order_key(l.card) >= l.trump.total_order_key(best.card) {
            best = l;
        }
        i += 1;
    }
    assert(us@.subrange(0, us.len() as int) =~= us@);
    best.card
}

/// Whether play `m` beats the best play so far, `w`, under the policy.
fn beats(trump: Trump, m: &Units, w: &Units, policy: ThrowEvaluationPolicy) -> (r: bool)
    requires
        m.len() >= 1,
        w.len() >= 1,
        units_measurable(m@),
        units_measurable(w@),
    ensures
        r == play_beats(trump, m@, w@, policy),
{
    let n = if m.len() < w.len() { m.len() } else { w.len() };
    match policy {
        ThrowEvaluationPolicy::All => {
            let mut i: usize = 0;
            while i < n
                invariant
                    i <= n,
                    n <= m.len() && n <= w.len(),
                    n == m.len() || n == w.len(),
                    policy == ThrowEvaluationPolicy::All,
                    units_measurable(m@),
                    units_measurable(w@),
                    forall|k: int| 0 <= k < i ==> #[trigger] first_key(trump, m@[k]) > first_key(trump, w@[k]),
                decreases n - i,
            {
                let a = m[i].first_card();
                let b = w[i].first_card();
                if trump.effective_order_key(a.card) <= trump.effective_order_key(b.card) {
                    assert(!(first_key(trump, m@[i as int]) > first_key(trump, w@[i as int])));
                    return false;
                }
                i += 1;
            }
            true
        },
        ThrowEvaluationPolicy::Highest => {
            let a = top_card_of(m);
            let b = top_card_of(w);
            trump.effective_order_key(a) > trump.effective_order_key(b)
        },
        ThrowEvaluationPolicy::TrickUnitLength => {
            let mut any_long = false;
            let mut j: usize = 0;
            while j < m.len()
                invariant
                    j <= m.len(),
                    units_measurable(m@),
                    any_long == exists|q: int| 0 <= q < j && unit_size(#[trigger] m@[q]) > 1,
                decreases m.len() - j,
            {
                if m[j].size() > 1 {
                    any_long = true;
                }
                j += 1;
            }
            let skip_single_cards = m.len() > 1 && any_long;
            let mut best: Option<usize> = None;
            let mut best_size: usize = 0;
            let mut i: usize = 0;
            while i < n
                invariant
                    i <= n,
                    n <= m.len() && n <= w.len(),
                    n == (if m.len() < w.len() { m.len() } else { w.len() }),
                    units_measurable(m@),
                    units_measurable(w@),
                    skip_single_cards == (m.len() > 1 && exists|q: int| 0 <= q < m.len() && unit_size(#[trigger] m@[q]) > 1),
                    best is None <==> decisive(trump, m@, w@, i as int) is None,
                    best matches Some(k) ==> decisive(trump, m@, w@, i as int) == Some(k as int),
                    best matches Some(k) ==> k < i && best_size == unit_size(m@[k as int]),
                decreases n - i,
            {
                let size = m[i].size();
                let considered = !skip_single_cards || size > 1;
                let a = m[i].first_card();
                let b = w[i].first_card();
                let ka = trump.effective_order_key(a.card);
                let kb = trump.effective_order_key(b.card);
                proof {
                    assert(length_considered(m@, i as int) == considered);
                }
                if considered && ka != kb && (best.is_none() || size > best_size) {
                    best = Some(i);
                    best_size = size;
                }
                i += 1;
            }
            match best {
                Some(k) => {
                    let a = m[k].first_card();
                    let b = w[k].first_card();
                    trump.effective_order_key(a.card) > trump.effective_order_key(b.card)
                },
                None => false,
            }
        },
    }
}


/// Counts that keep only the cards of one effective suit of a hand.
pub open spec fn restricts_to_suit(t: Trump, cc: CardCounts, hand: CardCounts, suit: EffectiveSuit) -> bool {
    forall|c: Card| #[trigger] cc.count(c) == (if effective_suit_of(t, c) == suit { hand.count(c) } else { 0nat })
}

/// Whether a hand holds cards of the suit that beat a unit of a throw: more
/// of a stronger card than a repeated card, or a tractor as wide and as long
/// as a tractor starting no lower than its second card.
pub open spec fn unit_halted(t: Trump, hand: CardCounts, suit: EffectiveSuit, u: TrickUnit) -> bool {
    match u {
        TrickUnit::Repeated { count, card } => repeated_beaten(t, hand, suit, count, card),
        TrickUnit::Tractor { count, members } => exists|cc: CardCounts| #[trigger] restricts_to_suit(t, cc, hand, suit)
            && tractor_beaten(t, cc, count, members@.len() as usize, members@[1].card),
    }
}

/// Looks, player by player after the one throwing, for a unit of the throw
/// that the player's hand beats; gives that player and the unit's index.
fn find_throw_beater(queue: &Vec<PlayerID>, hands: &Hands, tf: &TrickFormat) -> (r: Result<Option<(PlayerID, usize)>, TrickError>)
    requires
        hands.wf(),
        format_wf(*tf),
    ensures
        r is Err ==> r == Err::<Option<(PlayerID, usize)>, TrickError>(TrickError::HandError { source: HandError::NotAPlayer }),
        r is Err ==> exists|k: int| 1 <= k < queue.len() && !hands.has_player(#[trigger] queue@[k]),
        r matches Ok(Some(found)) ==> {
            &&& found.1 < tf.units.len()
            &&& exists|k: int| 1 <= k < queue.len() && #[trigger] queue@[k] == found.0
            &&& hands.has_player(found.0)
            &&& unit_halted(tf.trump, hands.hand_of(found.0), tf.suit, tf.units@[found.1 as int])
        },
        r matches Ok(None) ==> forall|k: int, i: int| 1 <= k < queue.len() && 0 <= i < tf.units.len() ==> {
            &&& hands.has_player(#[trigger] queue@[k])
            &&& (#[trigger] tf.units@[i] is Repeated ==> !unit_halted(tf.trump, hands.hand_of(queue@[k]), tf.suit, tf.units@[i]))
        },
{
    let mut k: usize = 1;
    while k < queue.len()
        invariant
            1 <= k,
            hands.wf(),
            format_wf(*tf),
            forall|q: int, i: int| 1 <= q < k && q < queue.len() && 0 <= i < tf.units.len() ==> {
                &&& hands.has_player(#[trigger] queue@[q])
                &&& (#[trigger] tf.units@[i] is Repeated ==> !unit_halted(tf.trump, hands.hand_of(queue@[q]), tf.suit, tf.units@[i]))
            },
        decreases queue.len() - k,
    {
        let player = queue[k];
        let hand = match hands.get(player) {
            Ok(h) => h,
            Err(e) => {
                return Err(TrickError::HandError { source: e });
            },
        };
        let (in_suit, _) = crate::trick::counts_in_suit(tf.trump, hand, tf.suit);
        let mut i: usize = 0;
        while i < tf.units.len()
            invariant
                i <= tf.units.len(),
                hands.wf(),
                format_wf(*tf),
                1 <= k < queue.len(),
                player == queue@[k as int],
                hands.has_player(player),
                *hand == hands.hand_of(player),
                restricts_to_suit(tf.trump, in_suit, *hand, tf.suit),
                forall|j: int| 0 <= j < i ==> (#[trigger] tf.units@[j] is Repeated ==> !unit_halted(tf.trump, *hand, tf.suit, tf.units@[j])),
            decreases tf.units.len() - i,
        {
            match &tf.units[i] {
                TrickUnit::Repeated { count, card } => {
                    if find_repeated_beater(tf.trump, hand, tf.suit, *count, *card) {
                        return Ok(Some((player, i)));
                    }
                },
                TrickUnit::Tractor { count, members } => {
                    proof {
                        assert(unit_valid(tf.trump, tf.units@[i as int]));
                    }
                    if find_tractor_beater(tf.trump, &in_suit, *count, members.len(), members[1].card) {
                        return Ok(Some((player, i)));
                    }
                },
            }
            i += 1;
        }
        proof {
            assert forall|q: int, j: int| 1 <= q < k + 1 && q < queue.len() && 0 <= j < tf.units.len() implies {
                &&& hands.has_player(#[trigger] queue@[q])
                &&& (#[trigger] tf.units@[j] is Repeated ==> !unit_halted(tf.trump, hands.hand_of(queue@[q]), tf.suit, tf.units@[j]))
            } by {
                if q == k {
                    assert(queue@[q] == player);
                }
            }
        }
        k += 1;
    }
    Ok(None)
}


/// Units shaped like the units of a well-formed format are measurable, and
/// there is at least one of them.
proof fn lemma_found_measurable(tf: TrickFormat, found: Seq<TrickUnit>)
    requires
        format_wf(tf),
        found.len() == tf.units.len(),
        forall|i: int| 0 <= i < found.len() ==> unit_shape(#[trigger] found[i]) =~= unit_shape(tf.units@[i]),
    ensures
        units_measurable(found),
        found.len() >= 1,
{
    crate::trick::lemma_units_size_bound(tf.units@);
    assert forall|i: int| 0 <= i < found.len() implies unit_sizable(#[trigger] found[i]) by {
        crate::trick::lemma_unit_size_shape(found[i]);
        crate::trick::lemma_unit_size_shape(tf.units@[i]);
        assert(unit_valid(tf.trump, tf.units@[i]));
    }
    if found.len() == 0 {
        assert(tf.units@.len() == 0);
        assert(units_size(tf.units@) == 0);
    }
}

proof fn lemma_same_shape(a: TrickUnit, b: TrickUnit)
    requires
        a.same_as(b),
    ensures
        unit_shape(a) =~= unit_shape(b),
{
}

/// A lead of one unit of a single card: a single, a pair, a triple ...
pub open spec fn one_card_lead(tf: TrickFormat) -> bool {
    tf.units.len() == 1 && unit_shape(tf.units@[0]).len() == 1
}

/// Whether a play follows a one-card lead with a unit of its own: as many
/// cards as the lead, all the same card, of the lead's suit or trump.
pub open spec fn matches_one_card(tf: TrickFormat, cards: Seq<Card>) -> bool {
    let s = effective_suit_of(tf.trump, cards[0]);
    &&& cards.len() == units_size(tf.units@)
    &&& (s == tf.suit || s == EffectiveSuit::Trump)
    &&& forall|i: int| 0 <= i < cards.len() ==> #[trigger] cards[i] == cards[0]
}

/// How strong the `b`th play of a one-card lead is: the lead's card for the
/// first play, else the card played.
pub open spec fn one_card_key(tf: TrickFormat, plays: Seq<PlayedCards>, b: int) -> int {
    if b == 0 {
        first_key(tf.trump, tf.units@[0])
    } else {
        effective_key(tf.trump, plays[b].cards@[0])
    }
}

/// Which of the first `n` plays wins a one-card lead, under every policy:
/// the first play, unless a later play that follows it with a unit of its
/// own has a strictly stronger card than the best play before it.
pub open spec fn one_card_winner(tf: TrickFormat, plays: Seq<PlayedCards>, n: int) -> int
    decreases n,
{
    if n <= 1 {
        0
    } else {
        let b = one_card_winner(tf, plays, n - 1);
        let cs = plays[n - 1].cards@;
        if matches_one_card(tf, cs) && effective_key(tf.trump, cs[0]) > one_card_key(tf, plays, b) {
            n - 1
        } else {
            b
        }
    }
}

proof fn lemma_one_card_winner_range(tf: TrickFormat, plays: Seq<PlayedCards>, n: int)
    requires
        n >= 1,
    ensures
        0 <= one_card_winner(tf, plays, n) < n,
    decreases n,
{
    if n > 1 {
        lemma_one_card_winner_range(tf, plays, n - 1);
    }
}

proof fn lemma_occurrences_le_len(s: Seq<Card>, c: Card)
    ensures
        occurrences(s, c) <= s.len(),
    decreases s.len(),
{
    if s.len() > 0 {
        let t = s.drop_last();
        assert(s =~= t.push(s.last()));
        crate::types::lemma_occurrences_push(t, s.last());
        lemma_occurrences_le_len(t, c);
    } else {
        s.to_multiset_ensures();
        assert(!s.contains(c));
    }
}

/// A card met as often as a sequence is long is all of it.
proof fn lemma_all_copies(s: Seq<Card>, c: Card)
    requires
        occurrences(s, c) >= s.len(),
    ensures
        forall|i: int| 0 <= i < s.len() ==> s[i] == c,
    decreases s.len(),
{
    if s.len() > 0 {
        let t = s.drop_last();
        assert(s =~= t.push(s.last()));
        crate::types::lemma_occurrences_push(t, s.last());
        lemma_occurrences_le_len(t, c);
        lemma_all_copies(t, c);
        assert forall|i: int| 0 <= i < s.len() implies s[i] == c by {
            if i < t.len() {
                assert(s[i] == t[i]);
            }
        }
    }
}

/// A sequence of copies of one card holds that card as often as it is long.
proof fn lemma_copies_count(s: Seq<Card>, c: Card)
    requires
        forall|i: int| 0 <= i < s.len() ==> s[i] == c,
    ensures
        occurrences(s, c) == s.len(),
        forall|d: Card| d != c ==> #[trigger] occurrences(s, d) == 0,
    decreases s.len(),
{
    if s.len() > 0 {
        let t = s.drop_last();
        assert(s =~= t.push(s.last()));
        crate::types::lemma_occurrences_push(t, s.last());
        lemma_copies_count(t, c);
    } else {
        s.to_multiset_ensures();
        assert(!s.contains(c));
    }
}

/// A unit of one tuple whose copies all come from the cards played, as many
/// as it holds, starts with the card played.
proof fn lemma_one_tuple_unit(u: TrickUnit, cards: Seq<Card>)
    requires
        unit_shape(u).len() == 1,
        unit_shape(u)[0] == cards.len(),
        cards.len() >= 1,
        forall|c: Card| unit_use(u, c) <= occurrences(cards, c),
    ensures
        unit_first(u).card == cards[0],
        unit_last(u) == unit_first(u),
{
    let f = unit_first(u).card;
    match u {
        TrickUnit::Tractor { count, members } => {
            assert(members@.len() == 1);
            assert(members@.drop_last() =~= Seq::<OrderedCard>::empty());
            assert(members_use(members@.drop_last(), count as nat, f) == 0);
            assert(members@.last() == members@[0]);
            assert(members_use(members@, count as nat, f) == count);
        },
        TrickUnit::Repeated { .. } => {},
    }
    assert(unit_use(u, f) == cards.len());
    lemma_all_copies(cards, f);
}

/// Against a one-card lead, a one-unit play beats a one-unit best play under
/// every policy exactly when its first card is stronger.
proof fn lemma_one_unit_beats(t: Trump, m: Seq<TrickUnit>, w: Seq<TrickUnit>, policy: ThrowEvaluationPolicy)
    requires
        m.len() == 1,
        w.len() == 1,
        unit_last(m[0]) == unit_first(m[0]),
        unit_last(w[0]) == unit_first(w[0]),
    ensures
        play_beats(t, m, w, policy) == (first_key(t, m[0]) > first_key(t, w[0])),
{
    assert(top_card(m) == unit_last(m[0]).card);
    assert(top_card(w) == unit_last(w[0]).card);
    assert(!length_considered(m, 0) == false);
    assert(decisive(t, m, w, 0) is None);
}

/// Following a one-card lead with a unit is having its number of copies of
/// one card, of its suit or trump.
proof fn lemma_matches_one_card(tf: TrickFormat, cards: Seq<Card>)
    requires
        one_card_lead(tf),
        cards.len() >= 1,
        unit_shape(tf.units@[0])[0] == units_size(tf.units@),
    ensures
        crate::trick::follows_format(tf, cards) == matches_one_card(tf, cards),
{
    let k = units_size(tf.units@);
    let shapes = crate::trick::format_shapes(tf.units@);
    let avail = crate::trick::occ_of(cards);
    let u0 = tf.units@[0];
    assert(unit_shape(u0) =~= seq![unit_shape(u0)[0]]);
    assert(shapes =~= seq![unit_shape(u0)]);
    assert(shapes.drop_first() =~= Seq::<Seq<usize>>::empty());
    if matches_one_card(tf, cards) {
        let c0 = cards[0];
        lemma_copies_count(cards, c0);
        let m = seq![(OrderedCard { card: c0, trump: tf.trump }, unit_shape(u0)[0])];
        assert(m.drop_first() =~= Seq::<(OrderedCard, usize)>::empty());
        assert(m.map_values(|p: (OrderedCard, usize)| p.0.card) =~= seq![c0]);
        assert forall|c: Card| crate::ordered_card::matching_use(m, c) <= avail(c) by {
            assert(crate::ordered_card::matching_use(m.drop_first(), c) == 0);
        }
        assert(crate::ordered_card::group_fits(avail, tf.trump, m, shapes[0], false));
        assert(crate::ordered_card::format_solvable(crate::ordered_card::after_group(avail, m), tf.trump, shapes.drop_first(), false));
        assert(all_in_suit(tf.trump, cards, effective_suit_of(tf.trump, cards[0])));
    }
    if crate::ordered_card::format_solvable(avail, tf.trump, shapes, false) && cards.len() == k {
        let m = choose|m: Seq<(OrderedCard, usize)>| #[trigger] crate::ordered_card::group_fits(avail, tf.trump, m, shapes[0], false)
            && crate::ordered_card::format_solvable(crate::ordered_card::after_group(avail, m), tf.trump, shapes.drop_first(), false);
        crate::ordered_card::lemma_matching_use_at(m, 0);
        assert(crate::ordered_card::matching_use(m, m[0].0.card) <= avail(m[0].0.card));
        lemma_all_copies(cards, m[0].0.card);
    }
}

/// Who wins among the plays: the first play, unless a later play that
/// matches the format beats the best play before it under the policy.
fn winner(trick_format: &Option<TrickFormat>, played_cards: &Vec<PlayedCards>, trump: Trump, policy: ThrowEvaluationPolicy) -> (r: Option<PlayerID>)
    requires
        trick_format matches Some(tf) ==> format_wf(*tf) && played_cards.len() > 0 && tf.trump == trump,
        forall|i: int| 0 <= i < played_cards.len() ==> (#[trigger] played_cards@[i]).cards.len() > 0,
    ensures
        trick_format is None ==> r is None,
        trick_format is Some ==> (r matches Some(w) && exists|k: int| 0 <= k < played_cards.len() && (#[trigger] played_cards@[k]).id == w),
        trick_format matches Some(tf) ==> (one_card_lead(*tf)
            ==> r == Some(played_cards@[one_card_winner(*tf, played_cards@, played_cards.len() as int)].id)),
        trick_format matches Some(tf) ==> (r matches Some(w) && exists|k: int| 0 <= k < played_cards.len()
            && (#[trigger] played_cards@[k]).id == w && (k == 0 || follows_format(*tf, played_cards@[k].cards@))),
        trick_format matches Some(tf) ==> ((forall|k: int| 1 <= k < played_cards.len() ==> !follows_format(*tf, (#[trigger] played_cards@[k]).cards@))
            ==> r == Some(played_cards@[0].id)),
{
    match trick_format {
        None => None,
        Some(tf) => {
            let mut best_idx: usize = 0;
            let mut best_units = crate::trick::clone_units(&tf.units);
            proof {
                assert forall|i: int| 0 <= i < best_units.len() implies unit_shape(#[trigger] best_units@[i]) =~= unit_shape(tf.units@[i]) by {
                    lemma_same_shape(best_units@[i], tf.units@[i]);
                }
                lemma_found_measurable(*tf, best_units@);
                if one_card_lead(*tf) {
                    lemma_one_tuple_ends(best_units@[0]);
                    lemma_one_card_size(*tf);
                }
            }
            let mut idx: usize = 1;
            while idx < played_cards.len()
                invariant
                    1 <= idx <= played_cards.len(),
                    best_idx < played_cards.len(),
                    format_wf(*tf),
                    tf.trump == trump,
                    forall|i: int| 0 <= i < played_cards.len() ==> (#[trigger] played_cards@[i]).cards.len() > 0,
                    units_measurable(best_units@),
                    best_units.len() >= 1,
                    best_idx == 0 || follows_format(*tf, played_cards@[best_idx as int].cards@),
                    (forall|k: int| 1 <= k < idx ==> !follows_format(*tf, (#[trigger] played_cards@[k]).cards@)) ==> best_idx == 0,
                    one_card_lead(*tf) ==> {
                        &&& best_idx == one_card_winner(*tf, played_cards@, idx as int)
                        &&& best_units.len() == 1
                        &&& unit_last(best_units@[0]) == unit_first(best_units@[0])
                        &&& first_key(trump, best_units@[0]) == one_card_key(*tf, played_cards@, best_idx as int)
                        &&& unit_shape(tf.units@[0])[0] == units_size(tf.units@)
                    },
                decreases played_cards.len() - idx,
            {
                let ghost cs = played_cards@[idx as int].cards@;
                let res = tf.matches(played_cards[idx].cards.as_slice());
                proof {
                    if one_card_lead(*tf) {
                        lemma_matches_one_card(*tf, cs);
                    }
                }
                match res {
                    Ok(m) => {
                        proof {
                            lemma_found_measurable(*tf, m@);
                            if one_card_lead(*tf) {
                                lemma_one_tuple_unit(m@[0], cs);
                                lemma_one_unit_beats(trump, m@, best_units@, policy);
                            }
                        }
                        if beats(trump, &m, &best_units, policy) {
                            best_idx = idx;
                            best_units = m;
                        }
                    },
                    Err(_) => {},
                }
                idx += 1;
            }
            proof {
                assert(played_cards@[best_idx as int].id == played_cards@[best_idx as int].id);
            }
            Some(played_cards[best_idx].id)
        },
    }
}

proof fn lemma_one_tuple_ends(u: TrickUnit)
    requires
        unit_shape(u).len() == 1,
    ensures
        unit_last(u) == unit_first(u),
{
    match u {
        TrickUnit::Tractor { members, .. } => {
            assert(members@.len() == 1);
        },
        TrickUnit::Repeated { .. } => {},
    }
}

proof fn lemma_one_card_size(tf: TrickFormat)
    requires
        one_card_lead(tf),
    ensures
        unit_shape(tf.units@[0])[0] == units_size(tf.units@),
{
    let u = tf.units@[0];
    crate::trick::lemma_unit_size_shape(u);
    let sh = unit_shape(u);
    assert(sh.drop_last() =~= Seq::<usize>::empty());
    assert(crate::ordered_card::seq_sum(sh.drop_last()) == 0);
    assert(tf.units@.drop_last() =~= Seq::<TrickUnit>::empty());
    assert(units_size(tf.units@.drop_last()) == 0);
}


/// What a successful play of `cards` by `id` changes: the player leaves the
/// queue, the play is appended, and its cards leave the player's hand. A
/// later play keeps the format and all its cards, sorted; a first play may
/// return part of a failed throw to the hand.
pub open spec fn played_step(before: Trick, after: Trick, hb: Hands, ha: Hands, id: PlayerID, cards: Seq<Card>, hide: bool) -> bool {
    let last = after.plays().last();
    &&& before.queue().len() > 0 && before.queue()[0] == id
    &&& after.queue() == before.queue().drop_first()
    &&& after.plays().len() == before.plays().len() + 1
    &&& after.plays().drop_last() == before.plays()
    &&& last.id == id
    &&& after.trump_spec() == before.trump_spec()
    &&& after.format() is Some
    &&& forall|c: Card| #[trigger] occurrences(last.cards@, c) + occurrences(last.bad_throw_cards@, c) == occurrences(cards, c)
    &&& (before.format() is Some ==> {
        &&& after.format() == before.format()
        &&& last.bad_throw_cards@.len() == 0
        &&& last.better_player is None
        &&& cards_sorted(after.trump_spec(), last.cards@)
    })
    &&& (hide ==> last.better_player is None)
    &&& forall|x: PlayerID| ha.has_player(x) == hb.has_player(x)
    &&& forall|x: PlayerID, c: Card| #[trigger] ha.count(x, c) + (if x == id { occurrences(last.cards@, c) as int } else { 0int }) == hb.count(x, c)
}

/// How the first play of a trick settles a throw: a failed throw is
/// reduced to one unit that a later player's hand beats, and is reported to
/// come from that player unless hidden; a throw that stands has no repeated
/// unit that a later player's hand beats.
pub open spec fn throw_settled(before: Trick, after: Trick, hb: Hands, hide: bool) -> bool {
    let last = after.plays().last();
    after.format() matches Some(tf) && {
        &&& last.bad_throw_cards@.len() > 0 ==> {
            &&& tf.units.len() == 1
            &&& exists|k: int| 1 <= k < before.queue().len() && {
                &&& hb.has_player(#[trigger] before.queue()[k])
                &&& unit_halted(tf.trump, hb.hand_of(before.queue()[k]), tf.suit, tf.units@[0])
                &&& (!hide ==> last.better_player == Some(before.queue()[k]))
            }
        }
        &&& (last.bad_throw_cards@.len() == 0 && tf.units.len() > 1) ==> forall|k: int, i: int|
            1 <= k < before.queue().len() && 0 <= i < tf.units.len() && (#[trigger] tf.units@[i]) is Repeated
            ==> !unit_halted(tf.trump, hb.hand_of(#[trigger] before.queue()[k]), tf.suit, tf.units@[i])
    }
}

proof fn lemma_nonempty_of_occurrence(s: Seq<Card>, c: Card)
    requires
        occurrences(s, c) > 0,
    ensures
        s.len() > 0,
{
    s.to_multiset_ensures();
}

impl Trick {
    /// Plays cards for the player whose turn it is. The first play sets the
    /// format; if it is a throw that a later player could beat, only the
    /// beaten unit is played and the rest goes back to the hand. On error,
    /// nothing changes.
    pub fn play_cards(&mut self, args: PlayCards, hands: &mut Hands) -> (r: Result<Vec<MessageVariant>, TrickError>)
        requires
            old(self).wf(),
            old(hands).wf(),
            args.format_hint matches Some(p) ==> forall|i: int| 0 <= i < p.len() ==> unit_sizable(#[trigger] p@[i]),
        ensures
            final(self).wf(),
            final(hands).wf(),
            final(hands).trump_spec() == old(hands).trump_spec(),
            r is Err ==> *final(self) == *old(self) && *final(hands) == *old(hands),
            (old(self).queue().len() == 0 || old(self).queue()[0] != args.id) ==> r == Err::<Vec<MessageVariant>, TrickError>(TrickError::OutOfOrder),
            old(self).queue().len() > 0 && old(self).queue()[0] == args.id
                ==> (can_play_result(*old(self), *old(hands), args.id, args.cards@, args.trick_draw_policy) matches Err(e)
                    ==> r == Err::<Vec<MessageVariant>, TrickError>(e)),
            old(self).queue().len() > 0 && old(self).queue()[0] == args.id && old(self).format() is Some
                ==> (r is Ok <==> can_play_result(*old(self), *old(hands), args.id, args.cards@, args.trick_draw_policy) is Ok),
            r is Ok ==> played_step(*old(self), *final(self), *old(hands), *final(hands), args.id, args.cards@, args.hide_throw_halting_player),
            r is Ok && old(self).format() is None ==> throw_settled(*old(self), *final(self), *old(hands), args.hide_throw_halting_player),
            r matches Ok(msgs) ==> msgs.len() >= 1 && (msgs@.last() matches MessageVariant::PlayedCards { cards }
                && cards@ == final(self).plays().last().cards@),
    {
        let id = args.id;
        if self.player_queue.len() == 0 || self.player_queue[0] != id {
            return Err(TrickError::OutOfOrder);
        }
        match self.can_play_cards(id, hands, args.cards, args.trick_draw_policy) {
            Ok(()) => {},
            Err(e) => {
                return Err(e);
            },
        }
        let hide = args.hide_throw_halting_player;
        let trump = self.trump;
        let mut msgs: Vec<MessageVariant> = Vec::new();
        let cards = sort_cards(trump, vstd::slice::slice_to_vec(args.cards));
        proof {
            assert(forall|c: Card| #[trigger] occurrences(cards@, c) == occurrences(args.cards@, c));
            assert(cards.len() > 0) by {
                if self.trick_format is Some {
                    let tf = self.trick_format->0;
                    assert(format_wf(tf));
                }
            }
        }
        let mut new_tf: Option<TrickFormat> = None;
        let mut final_cards: Vec<Card> = Vec::new();
        let mut bad_throw_cards: Vec<Card> = Vec::new();
        let mut better_player: Option<PlayerID> = None;
        if self.trick_format.is_none() {
            let mut tf = match TrickFormat::from_cards(trump, cards.as_slice(), args.format_hint) {
                Ok(tf) => tf,
                Err(e) => {
                    return Err(e);
                },
            };
            proof {
                crate::trick::lemma_units_size_bound(tf.units@);
            }
            let mut invalid: Option<(PlayerID, usize)> = None;
            if tf.units.len() > 1 {
                invalid = match find_throw_beater(&self.player_queue, hands, &tf) {
                    Ok(x) => x,
                    Err(e) => {
                        return Err(e);
                    },
                };
            }
            match invalid {
                Some((bp, ui)) => {
                    let forced_unit = tf.units[ui].clone();
                    let forced_cards = forced_unit.cards();
                    proof {
                        let u = tf.units@[ui as int];
                        assert(forced_unit.same_as(u));
                        assert(unit_valid(trump, u));
                        assert forall|c: Card| occurrences(forced_cards@, c) <= occurrences(cards@, c) by {
                            lemma_unit_use_le(tf.units@, ui as int, c);
                            assert(unit_use(forced_unit, c) == unit_use(u, c));
                        }
                        lemma_unit_uses_first(trump, u);
                        assert(occurrences(forced_cards@, unit_first(u).card) == unit_use(forced_unit, unit_first(u).card));
                        assert(unit_use(forced_unit, unit_first(u).card) == unit_use(u, unit_first(u).card));
                        lemma_nonempty_of_occurrence(forced_cards@, unit_first(u).card);
                    }
                    msgs.push(MessageVariant::ThrowFailed {
                        original_cards: vstd::slice::slice_to_vec(cards.as_slice()),
                        better_player: if hide { None } else { Some(bp) },
                    });
                    let rest = remove_cards(cards, &forced_cards);
                    let ghost orig_units = tf.units@;
                    let mut single: Units = Vec::new();
                    single.push(forced_unit);
                    tf.units = single;
                    proof {
                        let u = orig_units[ui as int];
                        assert(tf.units@.len() == 1);
                        assert(tf.units@.drop_last() =~= Seq::<TrickUnit>::empty());
                        assert(units_size(tf.units@.drop_last()) == 0);
                        assert(tf.units@.last() == tf.units@[0]);
                        assert(units_size(tf.units@) == unit_size(tf.units@[0]));
                        assert(tf.units@[0].same_as(u));
                        match u {
                            TrickUnit::Tractor { count, members } => {
                                assert(count * members.len() >= 1) by (nonlinear_arith)
                                    requires count >= 2, members.len() >= 2;
                            },
                            _ => {},
                        }
                    }
                    final_cards = forced_cards;
                    bad_throw_cards = rest;
                    better_player = Some(bp);
                },
                None => {
                    final_cards = cards;
                },
            }
            new_tf = Some(tf);
        } else {
            final_cards = cards;
        }
        proof {
            broadcast use vstd::seq_lib::group_to_multiset_ensures, vstd::multiset::group_multiset_axioms;
            assert forall|c: Card| #[trigger] occurrences(final_cards@, c) + occurrences(bad_throw_cards@, c) == occurrences(args.cards@, c) by {
                if bad_throw_cards@.len() == 0 {
                    assert(bad_throw_cards@ =~= Seq::<Card>::empty());
                }
            }
        }
        match hands.remove(id, vstd::slice::slice_to_vec(final_cards.as_slice())) {
            Ok(()) => {},
            Err(e) => {
                return Err(TrickError::HandError { source: e });
            },
        }
        match new_tf {
            Some(tf) => {
                self.trick_format = Some(tf);
            },
            None => {},
        }
        self.player_queue.remove(0);
        let mapping = match &self.trick_format {
            Some(tf) => match tf.matches(final_cards.as_slice()) {
                Ok(m) => Some(m),
                Err(_) => None,
            },
            None => None,
        };
        self.played_card_mappings.push(mapping);
        msgs.push(MessageVariant::PlayedCards { cards: vstd::slice::slice_to_vec(final_cards.as_slice()) });
        self.played_cards.push(PlayedCards {
            id,
            cards: final_cards,
            bad_throw_cards,
            better_player: if hide { None } else { better_player },
        });
        self.current_winner = winner(&self.trick_format, &self.played_cards, self.trump, args.throw_eval_policy);
        assert(self.played_cards@.drop_last() =~= old(self).played_cards@);
        Ok(msgs)
    }
}


/// What taking back the last play, made by `id`, changes: the play is
/// removed, the player goes back to the front of the queue, its cards go
/// back to the player's hand, and with no play left the format is cleared.
pub open spec fn took_back_step(before: Trick, after: Trick, hb: Hands, ha: Hands, id: PlayerID) -> bool {
    let last = before.plays().last();
    &&& before.plays().len() > 0 && last.id == id
    &&& after.plays() == before.plays().drop_last()
    &&& after.queue() == seq![id] + before.queue()
    &&& after.trump_spec() == before.trump_spec()
    &&& (after.plays().len() == 0 ==> after.format() is None)
    &&& (after.plays().len() > 0 ==> after.format() == before.format())
    &&& forall|x: PlayerID| ha.has_player(x) == hb.has_player(x)
    &&& forall|x: PlayerID, c: Card| #[trigger] ha.count(x, c) == hb.count(x, c) + (if x == id { occurrences(last.cards@, c) as int } else { 0int })
}

/// The point cards among some cards, in order.
pub open spec fn point_cards(s: Seq<Card>) -> Seq<Card>
    decreases s.len(),
{
    if s.len() == 0 {
        Seq::empty()
    } else {
        point_cards(s.drop_last()) + (if card_points(s.last()) is Some { seq![s.last()] } else { Seq::empty() })
    }
}

/// The point cards of the plays, play after play.
pub open spec fn plays_points(ps: Seq<PlayedCards>) -> Seq<Card>
    decreases ps.len(),
{
    if ps.len() == 0 {
        Seq::empty()
    } else {
        plays_points(ps.drop_last()) + point_cards(ps.last().cards@)
    }
}

/// The size of the largest unit, or 0 for no unit.
pub open spec fn max_unit_size(us: Seq<TrickUnit>) -> int
    decreases us.len(),
{
    if us.len() == 0 {
        0
    } else {
        let a = max_unit_size(us.drop_last());
        let b = unit_size(us.last());
        if b > a { b } else { a }
    }
}

impl Trick {
    /// Takes back the last play, if `id` made it. On error nothing changes.
    pub fn take_back(&mut self, id: PlayerID, hands: &mut Hands, throw_eval_policy: ThrowEvaluationPolicy) -> (r: Result<(), TrickError>)
        requires
            old(self).wf(),
            old(hands).wf(),
            (old(self).plays().len() > 0 && old(self).plays().last().id == id) ==> {
                &&& old(hands).has_player(id)
                &&& forall|c: Card| old(hands).count(id, c) + occurrences(old(self).plays().last().cards@, c) <= usize::MAX
            },
        ensures
            final(self).wf(),
            final(hands).wf(),
            final(hands).trump_spec() == old(hands).trump_spec(),
            r is Ok <==> (old(self).plays().len() > 0 && old(self).plays().last().id == id),
            r is Err ==> r == Err::<(), TrickError>(TrickError::OutOfOrder) && *final(self) == *old(self) && *final(hands) == *old(hands),
            r is Ok ==> took_back_step(*old(self), *final(self), *old(hands), *final(hands), id),
    {
        let n = self.played_cards.len();
        if n == 0 || self.played_cards[n - 1].id != id {
            return Err(TrickError::OutOfOrder);
        }
        let played = self.played_cards.pop().unwrap();
        self.played_card_mappings.pop();
        match hands.add(id, played.cards) {
            Ok(()) => {},
            Err(e) => {
                assert(false);
            },
        }
        self.player_queue.insert(0, id);
        if self.played_cards.len() == 0 {
            self.trick_format = None;
        }
        proof {
            assert(self.player_queue@ =~= seq![id] + old(self).player_queue@);
            assert(self.played_cards@ =~= old(self).played_cards@.drop_last());
            assert forall|i: int| 0 <= i < self.played_cards.len() implies (#[trigger] self.played_cards@[i]).cards.len() > 0 by {
                assert(self.played_cards@[i] == old(self).played_cards@[i]);
            }
        }
        self.current_winner = winner(&self.trick_format, &self.played_cards, self.trump, throw_eval_policy);
        Ok(())
    }

    /// Ends the trick once everyone has played: who won, the point cards
    /// played, the size of the largest unit of the format, and how many cards
    /// of a failed throw went back.
    pub fn complete(&self) -> (r: Result<TrickEnded, TrickError>)
        requires
            self.wf(),
        ensures
            r is Err <==> (self.queue().len() > 0 || self.plays().len() == 0),
            r is Err ==> r == Err::<TrickEnded, TrickError>(TrickError::OutOfOrder),
            r matches Ok(e) ==> {
                &&& self.winning() == Some(e.winner)
                &&& self.format() matches Some(tf) && (one_card_lead(tf)
                    ==> e.winner == self.plays()[one_card_winner(tf, self.plays(), self.plays().len() as int)].id)
                &&& self.format() matches Some(tf) && exists|k: int| 0 <= k < self.plays().len()
                    && (#[trigger] self.plays()[k]).id == e.winner && (k == 0 || follows_format(tf, self.plays()[k].cards@))
                &&& self.format() matches Some(tf) && ((forall|k: int| 1 <= k < self.plays().len()
                    ==> !follows_format(tf, (#[trigger] self.plays()[k]).cards@)) ==> e.winner == self.plays()[0].id)
                &&& e.points@ == plays_points(self.plays())
                &&& self.format() matches Some(tf) && e.largest_trick_unit_size == max_unit_size(tf.units@)
                &&& e.failed_throw_size == self.plays()[0].bad_throw_cards.len()
            },
    {
        if self.player_queue.len() > 0 || self.played_cards.len() == 0 {
            return Err(TrickError::OutOfOrder);
        }
        let tf = match &self.trick_format {
            Some(tf) => tf,
            None => {
                return Err(TrickError::OutOfOrder);
            },
        };
        let mut points: Vec<Card> = Vec::new();
        let mut p: usize = 0;
        while p < self.played_cards.len()
            invariant
                p <= self.played_cards.len(),
                points@ == plays_points(self.played_cards@.subrange(0, p as int)),
            decreases self.played_cards.len() - p,
        {
            let cards = &self.played_cards[p].cards;
            let ghost base = points@;
            let mut i: usize = 0;
            while i < cards.len()
                invariant
                    i <= cards.len(),
                    points@ == base + point_cards(cards@.subrange(0, i as int)),
                decreases cards.len() - i,
            {
                let c = cards[i];
                proof {
                    assert(cards@.subrange(0, i + 1).drop_last() =~= cards@.subrange(0, i as int));
                }
                if c.points().is_some() {
                    points.push(c);
                    assert(points@ =~= base + point_cards(cards@.subrange(0, i + 1)));
                } else {
                    assert(points@ =~= base + point_cards(cards@.subrange(0, i + 1)));
                }
                i += 1;
            }
            proof {
                assert(cards@.subrange(0, cards.len() as int) =~= cards@);
                assert(self.played_cards@.subrange(0, p + 1).drop_last() =~= self.played_cards@.subrange(0, p as int));
            }
            p += 1;
        }
        assert(self.played_cards@.subrange(0, self.played_cards.len() as int) =~= self.played_cards@);
        let winner = match self.current_winner {
            Some(w) => w,
            None => {
                return Err(TrickError::OutOfOrder);
            },
        };
        let mut largest: usize = 0;
        let mut i: usize = 0;
        proof {
            crate::trick::lemma_units_size_bound(tf.units@);
        }
        while i < tf.units.len()
            invariant
                i <= tf.units.len(),
                format_wf(*tf),
                forall|k: int| 0 <= k < tf.units.len() ==> unit_size(#[trigger] tf.units@[k]) <= units_size(tf.units@),
                largest == max_unit_size(tf.units@.subrange(0, i as int)),
            decreases tf.units.len() - i,
        {
            proof {
                crate::trick::lemma_unit_size_nonneg(tf.units@[i as int]);
                assert(tf.units@.subrange(0, i + 1).drop_last() =~= tf.units@.subrange(0, i as int));
            }
            let size = tf.units[i].size();
            if size > largest {
                largest = size;
            }
            i += 1;
        }
        assert(tf.units@.subrange(0, tf.units.len() as int) =~= tf.units@);
        Ok(TrickEnded {
            winner,
            points,
            largest_trick_unit_size: largest,
            failed_throw_size: self.played_cards[0].bad_throw_cards.len(),
        })
    }
}

/// Taking back a play undoes it: the queue, the plays and every hand are
/// as they were before the play, and so is the format.
pub proof fn lemma_take_back_undoes_play(
    t0: Trick,
    t1: Trick,
    t2: Trick,
    h0: Hands,
    h1: Hands,
    h2: Hands,
    id: PlayerID,
    cards: Seq<Card>,
    hide: bool,
)
    requires
        t0.wf(),
        played_step(t0, t1, h0, h1, id, cards, hide),
        took_back_step(t1, t2, h1, h2, id),
    ensures
        t2.queue() == t0.queue(),
        t2.plays() == t0.plays(),
        t2.format() == t0.format(),
        t2.trump_spec() == t0.trump_spec(),
        forall|x: PlayerID| h2.has_player(x) == h0.has_player(x),
        forall|x: PlayerID, c: Card| h2.count(x, c) == h0.count(x, c),
{
    assert(t2.queue() =~= t0.queue());
    assert(t1.plays().last() == t1.plays()[t1.plays().len() - 1]);
    assert forall|x: PlayerID, c: Card| h2.count(x, c) == h0.count(x, c) by {
        assert(h1.count(x, c) + (if x == id { occurrences(t1.plays().last().cards@, c) as int } else { 0int }) == h0.count(x, c));
        assert(h2.count(x, c) == h1.count(x, c) + (if x == id { occurrences(t1.plays().last().cards@, c) as int } else { 0int }));
    }
    if t0.format() is None {
        t0.lemma_format_iff_plays();
    }
}

impl Trick {
    /// A trick has a format exactly when something has been played.
    pub proof fn lemma_format_iff_plays(self)
        requires
            self.wf(),
        ensures
            self.format() is Some <==> self.plays().len() > 0,
    {
    }
}


/// Whether, under `TrickUnitLength`, the `i`th pair of units is one that
/// can decide: it is compared and its first cards differ.
pub open spec fn deciding_candidate(t: Trump, m: Seq<TrickUnit>, w: Seq<TrickUnit>, i: int) -> bool {
    length_considered(m, i) && first_key(t, m[i]) != first_key(t, w[i])
}

proof fn lemma_decisive_first_largest(t: Trump, m: Seq<TrickUnit>, w: Seq<TrickUnit>, n: int)
    requires
        0 <= n,
    ensures
        decisive(t, m, w, n) matches Some(i) ==> {
            &&& 0 <= i < n
            &&& deciding_candidate(t, m, w, i)
            &&& forall|j: int| 0 <= j < n && #[trigger] deciding_candidate(t, m, w, j)
                ==> unit_size(m[j]) < unit_size(m[i]) || (unit_size(m[j]) == unit_size(m[i]) && i <= j)
        },
        decisive(t, m, w, n) is None ==> forall|j: int| 0 <= j < n ==> !#[trigger] deciding_candidate(t, m, w, j),
    decreases n,
{
    if n > 0 {
        lemma_decisive_first_largest(t, m, w, n - 1);
    }
}

/// Under `TrickUnitLength`, a play beats the best play so far exactly when,
/// among the pairs of units that are compared and whose first cards differ,
/// the first one (in the format's order) of the largest size has the
/// stronger first card in the play; with no such pair, the play does not
/// beat it.
pub proof fn law_first_largest_pair_decides(t: Trump, m: Seq<TrickUnit>, w: Seq<TrickUnit>, i: int)
    requires
        0 <= i < m.len(),
        i < w.len(),
        deciding_candidate(t, m, w, i),
        forall|j: int| 0 <= j < m.len() && j < w.len() && #[trigger] deciding_candidate(t, m, w, j)
            ==> unit_size(m[j]) < unit_size(m[i]) || (unit_size(m[j]) == unit_size(m[i]) && i <= j),
    ensures
        play_beats(t, m, w, ThrowEvaluationPolicy::TrickUnitLength) == (first_key(t, m[i]) > first_key(t, w[i])),
{
    let n = if m.len() < w.len() { m.len() as int } else { w.len() as int };
    lemma_decisive_first_largest(t, m, w, n);
    match decisive(t, m, w, n) {
        Some(k) => {
            assert(deciding_candidate(t, m, w, k));
            assert(deciding_candidate(t, m, w, i));
        },
        None => {
            assert(deciding_candidate(t, m, w, i));
        },
    }
}

/// Under `TrickUnitLength`, a play none of whose compared units differs in
/// strength from the best play's does not beat it.
pub proof fn law_ties_do_not_beat(t: Trump, m: Seq<TrickUnit>, w: Seq<TrickUnit>)
    requires
        forall|j: int| 0 <= j < m.len() && j < w.len() ==> !#[trigger] deciding_candidate(t, m, w, j),
    ensures
        !play_beats(t, m, w, ThrowEvaluationPolicy::TrickUnitLength),
{
    let n = if m.len() < w.len() { m.len() as int } else { w.len() as int };
    lemma_decisive_first_largest(t, m, w, n);
    match decisive(t, m, w, n) {
        Some(k) => {
            assert(deciding_candidate(t, m, w, k));
        },
        None => {},
    }
}

} // verus!
