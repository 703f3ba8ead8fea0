//! Tricks: the format set by the first play of a trick, which plays follow
//! it, and who wins.

use std::cmp::Ordering;

pub mod round;

pub use round::{PlayCards, PlayedCards, Trick, TrickEnded};

use vstd::prelude::*;

use crate::hands::{HandError, Hands};
use crate::ordered_card::{
    attempt_format_match, is_chain, matches_shape, subsequent_decomposition_ordering, weakest_from,
    AdjacentTupleSizes, MatchingCards, OrderedCard, is_candidate, lemma_key_bound,
};
use crate::types::{effective_key, effective_suit_of, successors_of, total_key, Card, CardCounts, EffectiveSuit, PlayerID, Trump};

verus! {

#[derive(Debug, Copy, Clone, PartialEq, Eq, Structural)]
pub enum TrickError {
    HandError { source: HandError },
    WrongNumberOfCards,
    WrongNumberOfSuits,
    OutOfOrder,
    IllegalPlay,
    NonMatchingPlay,
    NonMatchingProposal,
}

#[derive(Debug, Copy, Clone, PartialEq, Eq, Structural)]
pub enum TrickDrawPolicy {
    NoProtections,
    LongerTuplesProtected,
    /// Only allow tractors to be drawn if the original format was also a tractor.
    OnlyDrawTractorOnTractor,
    NoFormatBasedDraw,
}

impl Default for TrickDrawPolicy {
    fn default() -> (r: Self)
        ensures
            r == TrickDrawPolicy::NoProtections,
    {
        TrickDrawPolicy::NoProtections
    }
}

#[derive(Debug, Copy, Clone, PartialEq, Eq, Structural)]
pub enum ThrowEvaluationPolicy {
    All,
    Highest,
    TrickUnitLength,
}

impl Default for ThrowEvaluationPolicy {
    fn default() -> (r: Self)
        ensures
            r == ThrowEvaluationPolicy::All,
    {
        ThrowEvaluationPolicy::All
    }
}

/// A unit of a play: a tractor (`count` copies of each of several adjacent
/// cards) or `count` copies of one card.
#[derive(Debug, PartialEq, Eq)]
pub enum TrickUnit {
    Tractor { count: usize, members: Vec<OrderedCard> },
    Repeated { count: usize, card: OrderedCard },
}

pub type Units = Vec<TrickUnit>;

pub open spec fn member_cards(members: Seq<OrderedCard>) -> Seq<Card> {
    members.map_values(|m: OrderedCard| m.card)
}

/// A well-formed unit under a trump: at least one copy of a card, or at least
/// two copies of each of at least two adjacent cards.
pub open spec fn unit_valid(t: Trump, u: TrickUnit) -> bool {
    match u {
        TrickUnit::Repeated { count, card } => count >= 1 && card.trump == t,
        TrickUnit::Tractor { count, members } => {
            &&& count >= 2
            &&& members.len() >= 2
            &&& forall|j: int| 0 <= j < members.len() ==> (#[trigger] members@[j]).trump == t
            &&& is_chain(t, member_cards(members@))
        },
    }
}

/// Copies of a card taken by `count` copies of each of the members.
pub open spec fn members_use(members: Seq<OrderedCard>, count: nat, c: Card) -> nat
    decreases members.len(),
{
    if members.len() == 0 {
        0
    } else {
        members_use(members.drop_last(), count, c) + (if members.last().card == c { count } else { 0 })
    }
}

/// Copies of a card that a unit consists of.
pub open spec fn unit_use(u: TrickUnit, c: Card) -> nat {
    match u {
        TrickUnit::Repeated { count, card } => if card.card == c { count as nat } else { 0 },
        TrickUnit::Tractor { count, members } => members_use(members@, count as nat, c),
    }
}

/// Copies of a card that a sequence of units consists of.
pub open spec fn units_use(us: Seq<TrickUnit>, c: Card) -> nat
    decreases us.len(),
{
    if us.len() == 0 {
        0
    } else {
        units_use(us.drop_last(), c) + unit_use(us.last(), c)
    }
}

/// The number of cards in a unit.
pub open spec fn unit_size(u: TrickUnit) -> int {
    match u {
        TrickUnit::Repeated { count, .. } => count as int,
        TrickUnit::Tractor { count, members } => count * members.len(),
    }
}

/// The number of cards in a sequence of units.
pub open spec fn units_size(us: Seq<TrickUnit>) -> int
    decreases us.len(),
{
    if us.len() == 0 {
        0
    } else {
        units_size(us.drop_last()) + unit_size(us.last())
    }
}

/// The weakest card of a unit.
pub open spec fn unit_first(u: TrickUnit) -> OrderedCard {
    match u {
        TrickUnit::Repeated { card, .. } => card,
        TrickUnit::Tractor { members, .. } => members@[0],
    }
}

/// The strongest card of a unit.
pub open spec fn unit_last(u: TrickUnit) -> OrderedCard {
    match u {
        TrickUnit::Repeated { card, .. } => card,
        TrickUnit::Tractor { members, .. } => members@.last(),
    }
}

/// A valid decomposition of counted cards: valid units that together use no
/// more copies of any card than are counted, and hold `n` cards in all.
pub open spec fn is_play_of(t: Trump, play: Seq<TrickUnit>, counts: CardCounts, n: int) -> bool {
    &&& forall|i: int| 0 <= i < play.len() ==> unit_valid(t, #[trigger] play[i])
    &&& forall|c: Card| units_use(play, c) <= counts.count(c)
    &&& units_size(play) == n
}

impl Clone for TrickUnit {
    fn clone(&self) -> (r: Self)
        ensures
            r.same_as(*self),
    {
        match self {
            TrickUnit::Tractor { count, members } => {
                let m = members.clone();
                assert(m@ =~= members@);
                TrickUnit::Tractor { count: *count, members: m }
            },
            TrickUnit::Repeated { count, card } => TrickUnit::Repeated { count: *count, card: *card },
        }
    }
}

impl TrickUnit {
    /// Equality of units by their contents.
    pub open spec fn same_as(self, other: TrickUnit) -> bool {
        match (self, other) {
            (TrickUnit::Tractor { count: a, members: ma }, TrickUnit::Tractor { count: b, members: mb }) => a == b && ma@ == mb@,
            (TrickUnit::Repeated { count: a, card: ca }, TrickUnit::Repeated { count: b, card: cb }) => a == b && ca == cb,
            _ => false,
        }
    }

    pub fn is_tractor(&self) -> (r: bool)
        ensures
            r == (*self is Tractor),
    {
        match self {
            TrickUnit::Tractor { .. } => true,
            TrickUnit::Repeated { .. } => false,
        }
    }

    pub fn is_repeated(&self) -> (r: bool)
        ensures
            r == (*self is Repeated),
    {
        match self {
            TrickUnit::Tractor { .. } => false,
            TrickUnit::Repeated { .. } => true,
        }
    }

    /// The number of cards in the unit.
    pub fn size(&self) -> (r: usize)
        requires
            unit_size(*self) <= usize::MAX,
        ensures
            r == unit_size(*self),
    {
        match self {
            TrickUnit::Repeated { count, .. } => *count,
            TrickUnit::Tractor { count, members } => {
                proof {
                    assert(0 <= *count * members.len()) by (nonlinear_arith);
                }
                *count * members.len()
            },
        }
    }

    /// The number of cards in the unit, or `None` if it does not fit a `usize`.
    pub fn checked_size(&self) -> (r: Option<usize>)
        ensures
            r matches Some(s) ==> s == unit_size(*self),
            r is None ==> unit_size(*self) > usize::MAX,
    {
        match self {
            TrickUnit::Repeated { count, .. } => Some(*count),
            TrickUnit::Tractor { count, members } => count.checked_mul(members.len()),
        }
    }

    pub fn first_card(&self) -> (r: OrderedCard)
        requires
            self matches TrickUnit::Tractor { members, .. } ==> members@.len() > 0,
        ensures
            r == unit_first(*self),
    {
        match self {
            TrickUnit::Repeated { card, .. } => *card,
            TrickUnit::Tractor { members, .. } => members[0],
        }
    }

    pub fn last_card(&self) -> (r: OrderedCard)
        requires
            self matches TrickUnit::Tractor { members, .. } ==> members@.len() > 0,
        ensures
            r == unit_last(*self),
    {
        match self {
            TrickUnit::Repeated { card, .. } => *card,
            TrickUnit::Tractor { members, .. } => members[members.len() - 1],
        }
    }

    /// The cards of the unit: each member card `count` times, in member order.
    pub fn cards(&self) -> (r: Vec<Card>)
        ensures
            forall|c: Card| crate::types::occurrences(r@, c) == unit_use(*self, c),
    {
        broadcast use vstd::seq_lib::group_to_multiset_ensures, vstd::multiset::group_multiset_axioms;
        let mut out: Vec<Card> = Vec::new();
        match self {
            TrickUnit::Repeated { count, card } => {
                let mut i: usize = 0;
                while i < *count
                    invariant
                        i <= *count,
                        forall|c: Card| crate::types::occurrences(out@, c) == (if card.card == c { i as nat } else { 0nat }),
                    decreases *count - i,
                {
                    let ghost before = out@;
                    out.push(card.card);
                    proof {
                        crate::types::lemma_occurrences_push(before, card.card);
                    }
                    i += 1;
                }
            },
            TrickUnit::Tractor { count, members } => {
                let mut j: usize = 0;
                while j < members.len()
                    invariant
                        j <= members.len(),
                        forall|c: Card| crate::types::occurrences(out@, c) == members_use(members@.subrange(0, j as int), *count as nat, c),
                    decreases members.len() - j,
                {
                    let card = members[j].card;
                    let mut i: usize = 0;
                    while i < *count
                        invariant
                            i <= *count,
                            j < members.len(),
                            card == members@[j as int].card,
                            forall|c: Card| crate::types::occurrences(out@, c) == members_use(members@.subrange(0, j as int), *count as nat, c)
                                + (if card == c { i as nat } else { 0nat }),
                        decreases *count - i,
                    {
                        let ghost before = out@;
                        out.push(card);
                        proof {
                            crate::types::lemma_occurrences_push(before, card);
                        }
                        i += 1;
                    }
                    proof {
                        assert(members@.subrange(0, j + 1).drop_last() =~= members@.subrange(0, j as int));
                    }
                    j += 1;
                }
                assert(members@.subrange(0, members.len() as int) =~= members@);
            },
        }
        out
    }
}


/// A tractor found from a starting card: valid, starting at `card`, at least
/// `min_count` wide and `min_length` long, at most `count` wide, and no wider
/// than the counted copies of its other members.
pub open spec fn tractor_from(
    t: Trump,
    u: TrickUnit,
    card: OrderedCard,
    count: usize,
    counts: CardCounts,
    min_count: usize,
    min_length: usize,
) -> bool {
    &&& unit_valid(t, u)
    &&& match u {
        TrickUnit::Tractor { count: w, members } => {
            &&& members@[0] == card
            &&& w <= count
            &&& w >= min_count
            &&& members@.len() >= min_length
            &&& forall|j: int| 1 <= j < members@.len() ==> counts.count((#[trigger] members@[j]).card) >= w
        },
        _ => false,
    }
}

proof fn lemma_members_map_push(ms: Seq<OrderedCard>, m: OrderedCard)
    ensures
        member_cards(ms.push(m)) == member_cards(ms).push(m.card),
{
    assert(member_cards(ms.push(m)) =~= member_cards(ms).push(m.card));
}

/// All tractors that start at `card` (of which `count` copies are held) and
/// continue through the counted cards, found breadth first, shortest first.
/// The width of each tractor is the smallest number of copies met so far in
/// the whole search.
pub(crate) fn find_tractors_from_start(
    card: OrderedCard,
    count: usize,
    counts: &CardCounts,
    external_min_count: usize,
    min_length: usize,
) -> (r: Units)
    requires
        external_min_count >= 2,
        min_length >= 2,
    ensures
        forall|k: int| 0 <= k < r.len() ==> tractor_from(card.trump, #[trigger] r@[k], card, count, *counts, external_min_count, min_length),
{
    let trump = card.trump;
    let mut potential_starts: Units = Vec::new();
    if count < external_min_count {
        return potential_starts;
    }
    // Each entry is a candidate next card together with the path leading to it.
    let mut next_cards: Vec<(OrderedCard, Vec<OrderedCard>)> = Vec::new();
    let succ = card.successor();
    let mut s: usize = 0;
    while s < succ.len()
        invariant
            s <= succ.len(),
            trump == card.trump,
            succ@ == crate::ordered_card::ordered_successors(card),
            forall|e: int| 0 <= e < next_cards.len() ==> {
                let (n, p) = #[trigger] next_cards@[e];
                &&& p@ == seq![card]
                &&& n.trump == trump
                &&& successors_of(trump, card.card).contains(n.card)
                &&& effective_key(trump, n.card) >= effective_key(trump, card.card) + 1
            },
        decreases succ.len() - s,
    {
        let mut path: Vec<OrderedCard> = Vec::new();
        path.push(card);
        proof {
            assert(succ@.len() == successors_of(trump, card.card).len());
            assert(succ@[s as int].card == successors_of(trump, card.card)[s as int]);
            crate::types::lemma_successor_stronger(trump, card.card, s as int);
        }
        next_cards.push((succ[s], path));
        s += 1;
    }
    let mut min_count = count;
    let ghost mut depth: int = 1;
    proof {
        lemma_key_bound(trump, card.card);
    }
    loop
        invariant
            external_min_count >= 2,
            min_length >= 2,
            min_count <= count,
            min_count >= 2,
            trump == card.trump,
            0 <= effective_key(trump, card.card),
            depth >= 1,
            forall|e: int| 0 <= e < next_cards.len() ==> {
                let (n, p) = #[trigger] next_cards@[e];
                &&& p@.len() >= 1
                &&& p@[0] == card
                &&& n.trump == trump
                &&& forall|j: int| 0 <= j < p@.len() ==> (#[trigger] p@[j]).trump == trump
                &&& is_chain(trump, member_cards(p@))
                &&& successors_of(trump, p@.last().card).contains(n.card)
                &&& forall|j: int| 1 <= j < p@.len() ==> counts.count((#[trigger] p@[j]).card) >= min_count
                &&& effective_key(trump, n.card) >= effective_key(trump, card.card) + depth
            },
            forall|k: int| 0 <= k < potential_starts.len() ==> tractor_from(trump, #[trigger] potential_starts@[k], card, count, *counts, external_min_count, min_length),
        decreases 800 - depth,
    {
        if next_cards.len() == 0 {
            break;
        }
        proof {
            let (n, p) = next_cards@[0];
            crate::types::lemma_key_bound_effective(trump, n.card);
        }
        let mut next_next_cards: Vec<(OrderedCard, Vec<OrderedCard>)> = Vec::new();
        let mut e: usize = 0;
        while e < next_cards.len()
            invariant
                e <= next_cards.len(),
                external_min_count >= 2,
                min_length >= 2,
                min_count <= count,
                min_count >= 2,
                trump == card.trump,
                forall|e2: int| 0 <= e2 < next_cards.len() ==> {
                    let (n, p) = #[trigger] next_cards@[e2];
                    &&& p@.len() >= 1
                    &&& p@[0] == card
                    &&& n.trump == trump
                    &&& forall|j: int| 0 <= j < p@.len() ==> (#[trigger] p@[j]).trump == trump
                    &&& is_chain(trump, member_cards(p@))
                    &&& successors_of(trump, p@.last().card).contains(n.card)
                    &&& e2 >= e ==> forall|j: int| 1 <= j < p@.len() ==> counts.count((#[trigger] p@[j]).card) >= min_count
                    &&& effective_key(trump, n.card) >= effective_key(trump, card.card) + depth
                },
                forall|e2: int| 0 <= e2 < next_next_cards.len() ==> {
                    let (n, p) = #[trigger] next_next_cards@[e2];
                    &&& p@.len() >= 1
                    &&& p@[0] == card
                    &&& n.trump == trump
                    &&& forall|j: int| 0 <= j < p@.len() ==> (#[trigger] p@[j]).trump == trump
                    &&& is_chain(trump, member_cards(p@))
                    &&& successors_of(trump, p@.last().card).contains(n.card)
                    &&& forall|j: int| 1 <= j < p@.len() ==> counts.count((#[trigger] p@[j]).card) >= min_count
                    &&& effective_key(trump, n.card) >= effective_key(trump, card.card) + depth + 1
                },
                forall|k: int| 0 <= k < potential_starts.len() ==> tractor_from(trump, #[trigger] potential_starts@[k], card, count, *counts, external_min_count, min_length),
            decreases next_cards.len() - e,
        {
            let next_card = next_cards[e].0;
            let mut path = next_cards[e].1.clone();
            let ghost p0 = next_cards@[e as int].1@;
            assert(path@ =~= p0);
            let next_count = counts.get(next_card.card);
            if next_count >= 2 {
                if next_count < min_count {
                    min_count = next_count;
                }
                path.push(next_card);
                proof {
                    lemma_members_map_push(p0, next_card);
                    let mc = member_cards(path@);
                    assert forall|j: int| 0 <= j < mc.len() - 1 implies successors_of(trump, #[trigger] mc[j]).contains(mc[j + 1]) by {
                        if j < mc.len() - 2 {
                            assert(mc[j] == member_cards(p0)[j] && mc[j + 1] == member_cards(p0)[j + 1]);
                        } else {
                            assert(mc[j] == p0.last().card);
                        }
                    }
                    assert forall|j: int| 1 <= j < path@.len() implies counts.count((#[trigger] path@[j]).card) >= min_count by {
                        if j < path@.len() - 1 {
                            assert(path@[j] == p0[j]);
                        }
                    }
                }
                if min_count >= external_min_count && path.len() >= min_length {
                    let members = path.clone();
                    assert(members@ =~= path@);
                    potential_starts.push(TrickUnit::Tractor { members, count: min_count });
                }
                let nsucc = next_card.successor();
                let mut s2: usize = 0;
                while s2 < nsucc.len()
                    invariant
                        s2 <= nsucc.len(),
                        nsucc@ == crate::ordered_card::ordered_successors(next_card),
                        next_card.trump == trump,
                        path@.len() >= 1,
                        path@[0] == card,
                        path@.last() == next_card,
                        forall|j: int| 0 <= j < path@.len() ==> (#[trigger] path@[j]).trump == trump,
                        is_chain(trump, member_cards(path@)),
                        forall|j: int| 1 <= j < path@.len() ==> counts.count((#[trigger] path@[j]).card) >= min_count,
                        effective_key(trump, next_card.card) >= effective_key(trump, card.card) + depth,
                        forall|e2: int| 0 <= e2 < next_next_cards.len() ==> {
                            let (n, p) = #[trigger] next_next_cards@[e2];
                            &&& p@.len() >= 1
                            &&& p@[0] == card
                            &&& n.trump == trump
                            &&& forall|j: int| 0 <= j < p@.len() ==> (#[trigger] p@[j]).trump == trump
                            &&& is_chain(trump, member_cards(p@))
                            &&& successors_of(trump, p@.last().card).contains(n.card)
                            &&& forall|j: int| 1 <= j < p@.len() ==> counts.count((#[trigger] p@[j]).card) >= min_count
                            &&& effective_key(trump, n.card) >= effective_key(trump, card.card) + depth + 1
                        },
                    decreases nsucc.len() - s2,
                {
                    proof {
                        assert(nsucc@.len() == successors_of(trump, next_card.card).len());
                        assert(nsucc@[s2 as int].card == successors_of(trump, next_card.card)[s2 as int]);
                        crate::types::lemma_successor_stronger(trump, next_card.card, s2 as int);
                    }
                    let p2 = path.clone();
                    assert(p2@ =~= path@);
                    next_next_cards.push((nsucc[s2], p2));
                    s2 += 1;
                }
            }
            e += 1;
        }
        next_cards = next_next_cards;
        proof {
            depth = depth + 1;
        }
    }
    potential_starts
}



proof fn lemma_same_unit(a: TrickUnit, b: TrickUnit, t: Trump)
    requires
        a.same_as(b),
    ensures
        unit_valid(t, a) == unit_valid(t, b),
        unit_size(a) == unit_size(b),
        forall|c: Card| #[trigger] unit_use(a, c) == unit_use(b, c),
{
}

proof fn lemma_same_units(a: Seq<TrickUnit>, b: Seq<TrickUnit>, counts: CardCounts, n: int, t: Trump)
    requires
        a.len() == b.len(),
        forall|x: int| 0 <= x < a.len() ==> (#[trigger] a[x]).same_as(b[x]),
    ensures
        is_play_of(t, b, counts, n) ==> is_play_of(t, a, counts, n),
        forall|c: Card| #[trigger] units_use(a, c) == units_use(b, c),
        units_size(a) == units_size(b),
    decreases a.len(),
{
    if a.len() > 0 {
        lemma_same_units(a.drop_last(), b.drop_last(), counts, n, t);
        lemma_same_unit(a.last(), b.last(), t);
        assert forall|c: Card| #[trigger] units_use(a, c) == units_use(b, c) by {
            assert(units_use(a, c) == units_use(a.drop_last(), c) + unit_use(a.last(), c));
            assert(units_use(b, c) == units_use(b.drop_last(), c) + unit_use(b.last(), c));
        }
        assert forall|x: int| 0 <= x < a.len() implies unit_valid(t, #[trigger] a[x]) == unit_valid(t, b[x]) by {
            lemma_same_unit(a[x], b[x], t);
        }
    }
}

/// A copy of a sequence of units.
pub(crate) fn clone_units(units: &Vec<TrickUnit>) -> (r: Vec<TrickUnit>)
    ensures
        r.len() == units.len(),
        forall|x: int| 0 <= x < r.len() ==> (#[trigger] r@[x]).same_as(units@[x]),
{
    let mut out: Vec<TrickUnit> = Vec::new();
    let mut i: usize = 0;
    while i < units.len()
        invariant
            i <= units.len(),
            out.len() == i,
            forall|x: int| 0 <= x < out.len() ==> (#[trigger] out@[x]).same_as(units@[x]),
        decreases units.len() - i,
    {
        out.push(units[i].clone());
        i += 1;
    }
    out
}

/// Counts with the cards of a unit taken away, if they are all there.
fn without_unit(counts: &CardCounts, unit: &TrickUnit) -> (r: Option<CardCounts>)
    ensures
        r is Some <==> forall|c: Card| unit_use(*unit, c) <= counts.count(c),
        r matches Some(sub) ==> forall|c: Card| sub.count(c) + unit_use(*unit, c) == counts.count(c),
{
    let mut sub = *counts;
    match unit {
        TrickUnit::Repeated { card, count } => {
            if sub.get(card.card) >= *count {
                sub.remove(card.card, *count);
                Some(sub)
            } else {
                None
            }
        },
        TrickUnit::Tractor { members, count } => {
            let mut j: usize = 0;
            while j < members.len()
                invariant
                    j <= members.len(),
                    forall|d: Card| #[trigger] unit_use(*unit, d) == members_use(members@, *count as nat, d),
                    forall|c: Card| sub.count(c) + members_use(members@.subrange(0, j as int), *count as nat, c) == counts.count(c),
                decreases members.len() - j,
            {
                let c = members[j].card;
                if sub.get(c) >= *count {
                    sub.remove(c, *count);
                } else {
                    proof {
                        assert(members@.subrange(0, j + 1).drop_last() =~= members@.subrange(0, j as int));
                        lemma_members_use_prefix(members@, j + 1, *count as nat, c);
                        assert(members@.subrange(0, members@.len() as int) =~= members@);
                        assert(members@.subrange(0, j + 1).last().card == c);
                        assert(members_use(members@.subrange(0, j + 1), *count as nat, c)
                            == members_use(members@.subrange(0, j as int), *count as nat, c) + *count);
                        assert(unit_use(*unit, c) > counts.count(c));
                    }
                    return None;
                }
                proof {
                    assert(members@.subrange(0, j + 1).drop_last() =~= members@.subrange(0, j as int));
                }
                j += 1;
            }
            assert(members@.subrange(0, members.len() as int) =~= members@);
            Some(sub)
        },
    }
}

/// A prefix of the members takes no more copies of a card than all of
/// them.
proof fn lemma_members_use_prefix(m: Seq<OrderedCard>, j: int, count: nat, c: Card)
    requires
        0 <= j <= m.len(),
    ensures
        members_use(m.subrange(0, j), count, c) <= members_use(m, count, c),
    decreases m.len() - j,
{
    if j < m.len() {
        lemma_members_use_prefix(m, j + 1, count, c);
        assert(m.subrange(0, j + 1).drop_last() =~= m.subrange(0, j));
    } else {
        assert(m.subrange(0, j) =~= m);
    }
}

pub(crate) proof fn lemma_units_push(us: Seq<TrickUnit>, u: TrickUnit)
    ensures
        forall|c: Card| #[trigger] units_use(us.push(u), c) == units_use(us, c) + unit_use(u, c),
        units_size(us.push(u)) == units_size(us) + unit_size(u),
{
    assert(us.push(u).drop_last() =~= us);
}

/// Every way to split the counted cards, from `min_start` upwards in the
/// trump order, into units. Each way lists its units from the strongest
/// starting card to the weakest.
fn find_plays_inner(counts: &CardCounts, trump: Trump, num_cards: usize, min_start: Option<Card>) -> (r: Vec<Units>)
    ensures
        forall|k: int| 0 <= k < r.len() ==> is_play_of(trump, (#[trigger] r@[k])@, *counts, num_cards as int),
    decreases num_cards,
{
    let mut plays: Vec<Units> = Vec::new();
    if num_cards == 0 {
        return plays;
    }
    let min_key: u64 = match min_start {
        Some(c) => trump.total_order_key(c),
        None => 0,
    };
    let mut potential_starts: Units = Vec::new();
    match weakest_from(counts, trump, min_key, 1) {
        Some(card) => {
            let count = counts.get(card);
            let oc = OrderedCard { card, trump };
            let new_tractors = find_tractors_from_start(oc, count, counts, 2, 2);
            let mut all_consumed = new_tractors.len() > 0;
            let mut t: usize = 0;
            while t < new_tractors.len()
                invariant
                    t <= new_tractors.len(),
                decreases new_tractors.len() - t,
            {
                match &new_tractors[t] {
                    TrickUnit::Tractor { members, count: width } => {
                        let mut j: usize = 0;
                        while j < members.len()
                            invariant
                                j <= members.len(),
                            decreases members.len() - j,
                        {
                            if counts.get(members[j].card) != *width {
                                all_consumed = false;
                            }
                            j += 1;
                        }
                    },
                    TrickUnit::Repeated { .. } => {
                        all_consumed = false;
                    },
                }
                t += 1;
            }
            potential_starts = new_tractors;
            if !all_consumed {
                potential_starts.push(TrickUnit::Repeated { card: oc, count });
            }
            proof {
                assert forall|k: int| 0 <= k < potential_starts.len() implies unit_valid(trump, #[trigger] potential_starts@[k]) by {
                    if k < new_tractors.len() {
                        assert(potential_starts@[k] == new_tractors@[k]);
                    }
                }
            }
        },
        None => {},
    }
    let mut i: usize = 0;
    while i < potential_starts.len()
        invariant
            i <= potential_starts.len(),
            num_cards > 0,
            plays.len() == 0,
            forall|k: int| 0 <= k < potential_starts.len() ==> unit_valid(trump, #[trigger] potential_starts@[k]),
        decreases potential_starts.len() - i,
    {
        let start = &potential_starts[i];
        if start.checked_size() == Some(num_cards) {
            if let Some(sub) = without_unit(counts, start) {
                let mut only: Units = Vec::new();
                let u = start.clone();
                only.push(u);
                proof {
                    lemma_same_unit(u, *start, trump);
                    assert(only@.drop_last() =~= Seq::<TrickUnit>::empty());
                    assert(units_size(only@) == units_size(only@.drop_last()) + unit_size(u));
                    assert forall|c: Card| units_use(only@, c) <= counts.count(c) by {
                        assert(units_use(only@, c) == units_use(only@.drop_last(), c) + unit_use(u, c));
                        assert(sub.count(c) + unit_use(*start, c) == counts.count(c));
                    }
                }
                plays.push(only);
                return plays;
            }
        }
        i += 1;
    }
    let mut i: usize = 0;
    while i < potential_starts.len()
        invariant
            i <= potential_starts.len(),
            num_cards > 0,
            forall|k: int| 0 <= k < potential_starts.len() ==> unit_valid(trump, #[trigger] potential_starts@[k]),
            forall|k: int| 0 <= k < plays.len() ==> is_play_of(trump, (#[trigger] plays@[k])@, *counts, num_cards as int),
        decreases potential_starts.len() - i,
    {
        let start = &potential_starts[i];
        match start.checked_size() {
            Some(size) => {
                if size <= num_cards && size > 0 {
                    match without_unit(counts, start) {
                        Some(sub) => {
                            let first = match start {
                                TrickUnit::Repeated { card, .. } => card.card,
                                TrickUnit::Tractor { members, .. } => members[0].card,
                            };
                            let sub_plays = find_plays_inner(&sub, trump, num_cards - size, Some(first));
                            let mut q: usize = 0;
                            while q < sub_plays.len()
                                invariant
                                    q <= sub_plays.len(),
                                    i < potential_starts.len(),
                                    start == &potential_starts@[i as int],
                                    unit_valid(trump, *start),
                                    unit_size(*start) == size,
                                    size <= num_cards,
                                    forall|c: Card| sub.count(c) + unit_use(*start, c) == counts.count(c),
                                    forall|k: int| 0 <= k < sub_plays.len() ==> is_play_of(trump, (#[trigger] sub_plays@[k])@, sub, num_cards - size),
                                    forall|k: int| 0 <= k < plays.len() ==> is_play_of(trump, (#[trigger] plays@[k])@, *counts, num_cards as int),
                                decreases sub_plays.len() - q,
                            {
                                let mut play = clone_units(&sub_plays[q]);
                                let ghost p0 = sub_plays@[q as int]@;
                                proof {
                                    lemma_same_units(play@, p0, sub, num_cards - size, trump);
                                }
                                let u = start.clone();
                                let ghost p1 = play@;
                                play.push(u);
                                proof {
                                    lemma_same_unit(u, *start, trump);
                                    lemma_units_push(p1, u);
                                }
                                plays.push(play);
                                q += 1;
                            }
                        },
                        None => {},
                    }
                }
            },
            None => {},
        }
        i += 1;
    }
    plays
}


impl TrickUnit {
    /// Every way to split the cards into units (tractors first, then
    /// repeated cards), found by starting from the weakest card.
    pub fn find_plays(trump: Trump, cards: Vec<Card>) -> (r: Vec<Units>)
        ensures
            forall|k: int| 0 <= k < r.len() ==> {
                let play = (#[trigger] r@[k])@;
                &&& forall|i: int| 0 <= i < play.len() ==> unit_valid(trump, #[trigger] play[i])
                &&& forall|c: Card| units_use(play, c) <= crate::types::occurrences(cards@, c)
                &&& units_size(play) == cards.len()
            },
    {
        let n = cards.len();
        let counts = Card::count(cards);
        find_plays_inner(&counts, trump, n, None)
    }
}

/// The copies of each card among some cards.
pub open spec fn occ_of(cards: Seq<Card>) -> spec_fn(Card) -> int {
    |c: Card| crate::types::occurrences(cards, c) as int
}

/// The copies of each card of one effective suit that a hand holds.
pub open spec fn suit_held(t: Trump, hand: CardCounts, suit: EffectiveSuit) -> spec_fn(Card) -> int {
    |c: Card| if effective_suit_of(t, c) == suit { hand.count(c) as int } else { 0int }
}

/// Whether a play follows the levels of shapes: the first level that either
/// the play matches, or the held cards could match, is one that the play
/// matches. With `protect`, the held cards may not split a tuple to match.
pub open spec fn follows_levels(t: Trump, proposed: Seq<Card>, held: spec_fn(Card) -> int, levels: Seq<Seq<Seq<usize>>>, protect: bool) -> bool
    decreases levels.len(),
{
    if levels.len() == 0 {
        true
    } else if crate::ordered_card::format_solvable(occ_of(proposed), t, levels[0], false) {
        true
    } else if crate::ordered_card::format_solvable(held, t, levels[0], protect) {
        false
    } else {
        follows_levels(t, proposed, held, levels.drop_first(), protect)
    }
}

/// Whether a player holding `hand` may follow the format with the proposed
/// cards (see `TrickFormat::is_legal_play`).
pub open spec fn legal_play(tf: TrickFormat, hand: CardCounts, proposed: Seq<Card>, policy: TrickDrawPolicy) -> bool {
    if proposed.len() != units_size(tf.units@) {
        false
    } else if count_in_suit(tf.trump, proposed, tf.suit) < proposed.len() {
        held_in_suit(tf.trump, hand, tf.suit, 55) == count_in_suit(tf.trump, proposed, tf.suit)
    } else if policy == TrickDrawPolicy::NoFormatBasedDraw {
        true
    } else {
        follows_levels(tf.trump, proposed, suit_held(tf.trump, hand, tf.suit), format_levels(tf.units@),
            policy == TrickDrawPolicy::LongerTuplesProtected)
    }
}

/// Whether a play follows a format unit for unit: its cards are all of one
/// effective suit, the format's or trump, as many as the format's, and they
/// can be grouped into units of the format's shapes.
pub open spec fn follows_format(tf: TrickFormat, cards: Seq<Card>) -> bool {
    let s = effective_suit_of(tf.trump, cards[0]);
    &&& all_in_suit(tf.trump, cards, s)
    &&& (s == tf.suit || s == EffectiveSuit::Trump)
    &&& cards.len() == units_size(tf.units@)
    &&& crate::ordered_card::format_solvable(occ_of(cards), tf.trump, format_shapes(tf.units@), false)
}

/// The shapes of the units of a format.
pub open spec fn format_shapes(units: Seq<TrickUnit>) -> Seq<Seq<usize>> {
    units.map_values(|u: TrickUnit| unit_shape(u))
}

/// Single tuples of the given sizes.
pub open spec fn singles_of(p: Seq<usize>) -> Seq<Seq<usize>> {
    p.map_values(|x: usize| seq![x])
}

/// The shapes a play must follow, in order: the format's own shapes, then
/// each weaker split of its tuples into single tuples, from the strongest to
/// the weakest.
pub open spec fn format_levels(units: Seq<TrickUnit>) -> Seq<Seq<Seq<usize>>> {
    seq![format_shapes(units)] + crate::ordered_card::weakenings(format_shapes(units)).map_values(|p: Seq<usize>| singles_of(p))
}

/// The sizes of the adjacent tuples of each shape.
pub open spec fn unit_shapes(units: Seq<UnitLike>) -> Seq<Seq<usize>> {
    units.map_values(|u: UnitLike| u.adjacent_tuples@)
}

/// The shape of a unit: the sizes of its adjacent tuples.
#[derive(Debug, Clone, PartialEq, Eq, Hash)]
pub struct UnitLike {
    pub adjacent_tuples: AdjacentTupleSizes,
}

/// The tuple sizes of a unit: `count` for each member of a tractor.
pub open spec fn unit_shape(u: TrickUnit) -> Seq<usize> {
    match u {
        TrickUnit::Tractor { count, members } => Seq::new(members.len() as nat, |i: int| count),
        TrickUnit::Repeated { count, .. } => seq![count],
    }
}

impl UnitLike {
    /// The shape of a unit.
    pub fn from_unit(u: &TrickUnit) -> (r: UnitLike)
        ensures
            r.adjacent_tuples@ == unit_shape(*u),
    {
        let mut v: Vec<usize> = Vec::new();
        match u {
            TrickUnit::Tractor { members, count } => {
                let mut i: usize = 0;
                while i < members.len()
                    invariant
                        i <= members.len(),
                        v@ == Seq::new(i as nat, |k: int| *count),
                    decreases members.len() - i,
                {
                    v.push(*count);
                    i += 1;
                    assert(v@ =~= Seq::new(i as nat, |k: int| *count));
                }
            },
            TrickUnit::Repeated { count, .. } => {
                v.push(*count);
                assert(v@ =~= seq![*count]);
            },
        }
        UnitLike { adjacent_tuples: v }
    }

    /// The shape of some matched cards.
    pub fn from_matching(m: &MatchingCards) -> (r: UnitLike)
        ensures
            r.adjacent_tuples@ == m@.map_values(|p: (OrderedCard, usize)| p.1),
    {
        let mut v: Vec<usize> = Vec::new();
        let mut i: usize = 0;
        while i < m.len()
            invariant
                i <= m.len(),
                v@ == m@.subrange(0, i as int).map_values(|p: (OrderedCard, usize)| p.1),
            decreases m.len() - i,
        {
            v.push(m[i].1);
            i += 1;
            assert(v@ =~= m@.subrange(0, i as int).map_values(|p: (OrderedCard, usize)| p.1));
        }
        assert(m@.subrange(0, m.len() as int) =~= m@);
        UnitLike { adjacent_tuples: v }
    }

    /// Whether all tuples have the same size.
    pub fn rectangular(&self) -> (r: bool)
        requires
            self.adjacent_tuples@.len() > 0,
        ensures
            r == forall|i: int| 0 <= i < self.adjacent_tuples@.len() ==> #[trigger] self.adjacent_tuples@[i] == self.adjacent_tuples@[0],
    {
        let first = self.adjacent_tuples[0];
        let mut i: usize = 0;
        while i < self.adjacent_tuples.len()
            invariant
                i <= self.adjacent_tuples.len(),
                first == self.adjacent_tuples@[0],
                forall|k: int| 0 <= k < i ==> #[trigger] self.adjacent_tuples@[k] == first,
            decreases self.adjacent_tuples.len() - i,
        {
            if self.adjacent_tuples[i] != first {
                return false;
            }
            i += 1;
        }
        true
    }

    /// The number of cards of this shape.
    pub fn num_cards(&self) -> (r: usize)
        requires
            crate::ordered_card::seq_sum(self.adjacent_tuples@) <= usize::MAX,
        ensures
            r == crate::ordered_card::seq_sum(self.adjacent_tuples@),
    {
        let mut total: usize = 0;
        let mut i: usize = 0;
        while i < self.adjacent_tuples.len()
            invariant
                i <= self.adjacent_tuples.len(),
                crate::ordered_card::seq_sum(self.adjacent_tuples@) <= usize::MAX,
                total == crate::ordered_card::seq_sum(self.adjacent_tuples@.subrange(0, i as int)),
            decreases self.adjacent_tuples.len() - i,
        {
            proof {
                crate::ordered_card::lemma_seq_sum_prefix(self.adjacent_tuples@, i + 1);
            }
            total = total + self.adjacent_tuples[i];
            i += 1;
        }
        assert(self.adjacent_tuples@.subrange(0, self.adjacent_tuples.len() as int) =~= self.adjacent_tuples@);
        total
    }

    /// Looks for cards among `cards` that match the given shapes, one after
    /// another. Under `LongerTuplesProtected` a shape may not take only part
    /// of the copies of a card.
    pub fn check_play(trump: Trump, cards: &[Card], units: &[UnitLike], trick_draw_policy: TrickDrawPolicy) -> (r: (bool, Vec<MatchingCards>))
        ensures
            r.0 == crate::ordered_card::format_solvable(occ_of(cards@), trump,
                unit_shapes(units@), trick_draw_policy == TrickDrawPolicy::LongerTuplesProtected),
            r.0 ==> r.1.len() == units.len(),
            r.0 ==> forall|i: int| 0 <= i < r.1.len() ==> matches_shape(trump, (#[trigger] r.1@[i])@, units@[i].adjacent_tuples@),
            r.0 ==> forall|c: Card| crate::ordered_card::matchings_use(r.1@, c) <= crate::types::occurrences(cards@, c),
    {
        let counts = Card::count_slice(cards);
        let mut reqs: Vec<Vec<usize>> = Vec::new();
        let mut i: usize = 0;
        while i < units.len()
            invariant
                i <= units.len(),
                reqs.len() == i,
                forall|k: int| 0 <= k < i ==> (#[trigger] reqs@[k])@ == units@[k].adjacent_tuples@,
            decreases units.len() - i,
        {
            let t = units[i].adjacent_tuples.clone();
            assert(t@ =~= units@[i as int].adjacent_tuples@);
            reqs.push(t);
            i += 1;
        }
        let protect = match trick_draw_policy {
            TrickDrawPolicy::LongerTuplesProtected => true,
            _ => false,
        };
        let r = attempt_format_match(&counts, trump, reqs.as_slice(), 0, protect);
        proof {
            assert(reqs@.subrange(0, reqs@.len() as int) =~= reqs@);
            assert(crate::ordered_card::avail_of(counts) =~= occ_of(cards@));
            assert(crate::ordered_card::seq_views(reqs@) =~= unit_shapes(units@));
            assert(crate::ordered_card::seq_views(reqs@).subrange(0, reqs@.len() as int) =~= unit_shapes(units@));
            if r.0 {
                assert forall|c: Card| crate::ordered_card::matchings_use(r.1@, c) <= crate::types::occurrences(cards@, c) by {
                    assert(crate::ordered_card::matchings_use(r.1@, c) <= counts.count(c));
                }
            }
        }
        r
    }
}


/// The order in which the units of a format are listed: by size, then by
/// their weakest card.
pub open spec fn unit_key_le(a: TrickUnit, b: TrickUnit) -> bool {
    unit_size(a) < unit_size(b) || (unit_size(a) == unit_size(b) && total_key(unit_first(a).trump, unit_first(a).card)
        <= total_key(unit_first(b).trump, unit_first(b).card))
}

pub open spec fn units_sorted(us: Seq<TrickUnit>) -> bool {
    forall|i: int, j: int| 0 <= i < j < us.len() ==> unit_key_le(#[trigger] us[i], #[trigger] us[j])
}

/// A unit whose size fits a `usize` and which has a first card.
pub open spec fn unit_sizable(u: TrickUnit) -> bool {
    &&& unit_size(u) <= usize::MAX
    &&& u matches TrickUnit::Tractor { members, .. } ==> members@.len() > 0
}

proof fn lemma_units_insert(s: Seq<TrickUnit>, pos: int, x: TrickUnit)
    requires
        0 <= pos <= s.len(),
    ensures
        forall|c: Card| #[trigger] units_use(s.insert(pos, x), c) == units_use(s, c) + unit_use(x, c),
        units_size(s.insert(pos, x)) == units_size(s) + unit_size(x),
    decreases s.len(),
{
    if pos == s.len() {
        assert(s.insert(pos, x) =~= s.push(x));
        lemma_units_push(s, x);
    } else {
        let t = s.drop_last();
        lemma_units_insert(t, pos, x);
        assert(s.insert(pos, x) =~= t.insert(pos, x).push(s.last()));
        lemma_units_push(t.insert(pos, x), s.last());
        assert forall|c: Card| #[trigger] units_use(s.insert(pos, x), c) == units_use(s, c) + unit_use(x, c) by {
            assert(units_use(s, c) == units_use(t, c) + unit_use(s.last(), c));
        }
        assert(units_size(s) == units_size(t) + unit_size(s.last()));
    }
}

/// Whether unit `a` comes after unit `b` in the listing order.
fn unit_after(a: &TrickUnit, b: &TrickUnit) -> (r: bool)
    requires
        unit_sizable(*a),
        unit_sizable(*b),
    ensures
        r == !unit_key_le(*a, *b),
{
    let sa = a.size();
    let sb = b.size();
    if sa != sb {
        return sa > sb;
    }
    let fa = a.first_card();
    let fb = b.first_card();
    fa.trump.total_order_key(fa.card) > fb.trump.total_order_key(fb.card)
}

/// Sorts units by size, then by their weakest card, keeping the order of
/// units that compare equal.
pub fn sort_units(units: Vec<TrickUnit>) -> (r: Vec<TrickUnit>)
    requires
        forall|i: int| 0 <= i < units.len() ==> unit_sizable(#[trigger] units@[i]),
    ensures
        units_sorted(r@),
        r.len() == units.len(),
        forall|c: Card| #[trigger] units_use(r@, c) == units_use(units@, c),
        units_size(r@) == units_size(units@),
        forall|i: int| 0 <= i < r.len() ==> exists|j: int| 0 <= j < units.len() && #[trigger] r@[i] == units@[j],
{
    let mut out: Vec<TrickUnit> = Vec::new();
    let mut rest = units;
    let ghost orig = rest@;
    // Take the units from the back so the front of `orig` stays in `rest`.
    let mut reversed: Vec<TrickUnit> = Vec::new();
    while rest.len() > 0
        invariant
            rest@ == orig.subrange(0, rest.len() as int),
            rest.len() <= orig.len(),
            reversed.len() + rest.len() == orig.len(),
            forall|i: int| 0 <= i < reversed.len() ==> #[trigger] reversed@[i] == orig[orig.len() - 1 - i],
        decreases rest.len(),
    {
        let u = rest.pop().unwrap();
        reversed.push(u);
    }
    let ghost rev = reversed@;
    while reversed.len() > 0
        invariant
            reversed@ == rev.subrange(0, reversed.len() as int),
            rev.len() == orig.len(),
            forall|i: int| 0 <= i < rev.len() ==> #[trigger] rev[i] == orig[orig.len() - 1 - i],
            forall|i: int| 0 <= i < orig.len() ==> unit_sizable(#[trigger] orig[i]),
            units_sorted(out@),
            out.len() + reversed.len() == orig.len(),
            forall|c: Card| #[trigger] units_use(out@, c) == units_use(orig.subrange(0, out.len() as int), c),
            units_size(out@) == units_size(orig.subrange(0, out.len() as int)),
            forall|i: int| 0 <= i < out.len() ==> exists|j: int| 0 <= j < out.len() && #[trigger] out@[i] == orig[j],
        decreases reversed.len(),
    {
        let u = reversed.pop().unwrap();
        let ghost k = out.len() as int;
        assert(u == orig[k]);
        let mut pos: usize = 0;
        while pos < out.len() && !unit_after(&out[pos], &u)
            invariant
                pos <= out.len(),
                unit_sizable(u),
                forall|i: int| 0 <= i < out.len() ==> exists|j: int| 0 <= j < out.len() && #[trigger] out@[i] == orig[j],
                forall|i: int| 0 <= i < orig.len() ==> unit_sizable(#[trigger] orig[i]),
                out.len() < orig.len(),
                forall|i: int| 0 <= i < pos ==> unit_key_le(#[trigger] out@[i], u),
            decreases out.len() - pos,
        {
            proof {
                let j = choose|j: int| 0 <= j < out.len() && out@[pos as int] == orig[j];
            }
            pos += 1;
        }
        let ghost before = out@;
        proof {
            assert forall|i: int| pos <= i < before.len() implies !unit_key_le(#[trigger] before[i], u) || unit_key_le(u, before[i]) by {
            }
        }
        out.insert(pos, u);
        proof {
            lemma_units_insert(before, pos as int, u);
            let prefix = orig.subrange(0, k + 1);
            assert(prefix.drop_last() =~= orig.subrange(0, k));
            lemma_units_push(orig.subrange(0, k), u);
            assert(prefix =~= orig.subrange(0, k).push(u));
            assert forall|a: int, b: int| 0 <= a < b < out.len() implies unit_key_le(#[trigger] out@[a], #[trigger] out@[b]) by {
                if b < pos {
                    assert(out@[a] == before[a] && out@[b] == before[b]);
                } else if b == pos {
                    assert(out@[a] == before[a]);
                } else if a < pos {
                    assert(out@[a] == before[a] && out@[b] == before[b - 1]);
                    if pos < before.len() {
                        assert(!unit_key_le(before[pos as int], u) || unit_key_le(u, before[pos as int]));
                    }
                } else if a == pos {
                    assert(out@[b] == before[b - 1]);
                } else {
                    assert(out@[a] == before[a - 1] && out@[b] == before[b - 1]);
                }
            }
            assert forall|i: int| 0 <= i < out.len() implies exists|j: int| 0 <= j < out.len() && #[trigger] out@[i] == orig[j] by {
                if i < pos {
                    assert(out@[i] == before[i]);
                    let j = choose|j: int| 0 <= j < before.len() && before[i] == orig[j];
                } else if i == pos {
                    assert(out@[i] == orig[k]);
                } else {
                    assert(out@[i] == before[i - 1]);
                    let j = choose|j: int| 0 <= j < before.len() && before[i - 1] == orig[j];
                }
            }
        }
    }
    assert(orig.subrange(0, orig.len() as int) =~= orig);
    out
}


/// The format of a trick, set by its first play: the effective suit and the
/// units that the other players have to follow.
#[derive(Debug, PartialEq, Eq)]
pub struct TrickFormat {
    pub suit: EffectiveSuit,
    pub trump: Trump,
    pub units: Units,
}

/// Whether every card of a sequence has the given effective suit.
pub open spec fn all_in_suit(t: Trump, cards: Seq<Card>, suit: EffectiveSuit) -> bool {
    forall|i: int| 0 <= i < cards.len() ==> effective_suit_of(t, #[trigger] cards[i]) == suit
}

/// The number of cards of a sequence with the given effective suit.
pub open spec fn count_in_suit(t: Trump, cards: Seq<Card>, suit: EffectiveSuit) -> nat
    decreases cards.len(),
{
    if cards.len() == 0 {
        0
    } else {
        count_in_suit(t, cards.drop_last(), suit) + (if effective_suit_of(t, cards.last()) == suit { 1nat } else { 0nat })
    }
}

/// The number of cards held with the given effective suit, over the first
/// `n` slots of the counts.
pub open spec fn held_in_suit(t: Trump, counts: CardCounts, suit: EffectiveSuit, n: int) -> nat
    decreases n,
{
    if n <= 0 {
        0
    } else {
        held_in_suit(t, counts, suit, n - 1) + (if effective_suit_of(t, crate::types::card_at_slot(n - 1)) == suit {
            counts.count(crate::types::card_at_slot(n - 1))
        } else {
            0nat
        })
    }
}

impl Clone for TrickFormat {
    fn clone(&self) -> (r: Self)
        ensures
            r.suit == self.suit,
            r.trump == self.trump,
            r.units.len() == self.units.len(),
            forall|x: int| 0 <= x < r.units.len() ==> (#[trigger] r.units@[x]).same_as(self.units@[x]),
    {
        TrickFormat { suit: self.suit, trump: self.trump, units: clone_units(&self.units) }
    }
}

impl TrickFormat {
    pub fn trump(&self) -> (r: Trump)
        ensures
            r == self.trump,
    {
        self.trump
    }

    pub fn suit(&self) -> (r: EffectiveSuit)
        ensures
            r == self.suit,
    {
        self.suit
    }

    /// The number of cards a play has to consist of.
    pub fn size(&self) -> (r: usize)
        requires
            units_size(self.units@) <= usize::MAX,
            forall|i: int| 0 <= i < self.units@.len() ==> unit_size(#[trigger] self.units@[i]) >= 0,
        ensures
            r == units_size(self.units@),
    {
        let mut total: usize = 0;
        let mut i: usize = 0;
        while i < self.units.len()
            invariant
                i <= self.units.len(),
                units_size(self.units@) <= usize::MAX,
                forall|k: int| 0 <= k < self.units@.len() ==> unit_size(#[trigger] self.units@[k]) >= 0,
                total == units_size(self.units@.subrange(0, i as int)),
            decreases self.units.len() - i,
        {
            proof {
                lemma_units_size_prefix(self.units@, i as int + 1);
            }
            total = total + self.units[i].size();
            i += 1;
        }
        assert(self.units@.subrange(0, self.units.len() as int) =~= self.units@);
        total
    }

    /// The shapes a play must follow: first the format itself, then ever
    /// weaker splits of its tuples, for a player who cannot follow the format.
    pub fn decomposition(&self, trick_draw_policy: TrickDrawPolicy) -> (r: Vec<Vec<UnitLike>>)
        requires
            units_size(self.units@) <= usize::MAX,
        ensures
            r@.map_values(|l: Vec<UnitLike>| unit_shapes(l@)) == format_levels(self.units@),
            r.len() >= 1,
            r@[0].len() == self.units.len(),
            forall|i: int| 0 <= i < self.units.len() ==> (#[trigger] r@[0]@[i]).adjacent_tuples@ == unit_shape(self.units@[i]),
    {
        let mut first: Vec<UnitLike> = Vec::new();
        let mut adj: Vec<AdjacentTupleSizes> = Vec::new();
        let mut i: usize = 0;
        while i < self.units.len()
            invariant
                i <= self.units.len(),
                first.len() == i,
                adj.len() == i,
                forall|k: int| 0 <= k < i ==> (#[trigger] first@[k]).adjacent_tuples@ == unit_shape(self.units@[k]),
                forall|k: int| 0 <= k < i ==> (#[trigger] adj@[k])@ == unit_shape(self.units@[k]),
            decreases self.units.len() - i,
        {
            let u = UnitLike::from_unit(&self.units[i]);
            let a = UnitLike::from_unit(&self.units[i]).adjacent_tuples;
            first.push(u);
            adj.push(a);
            i += 1;
        }
        proof {
            assert(adj@.len() == self.units@.len());
            lemma_total_size_shapes(adj@, self.units@);
        }
        let later = subsequent_decomposition_ordering(
            adj.as_slice(),
            match trick_draw_policy {
                TrickDrawPolicy::OnlyDrawTractorOnTractor => false,
                _ => true,
            },
        );
        let ghost levels = format_levels(self.units@);
        let ghost ws = crate::ordered_card::weakenings(format_shapes(self.units@));
        proof {
            assert(crate::ordered_card::seq_views(adj@) =~= format_shapes(self.units@));
            assert(unit_shapes(first@) =~= format_shapes(self.units@));
        }
        let mut out: Vec<Vec<UnitLike>> = Vec::new();
        out.push(first);
        let mut k: usize = 0;
        while k < later.len()
            invariant
                k <= later.len(),
                out.len() == k + 1,
                out@[0].len() == self.units.len(),
                forall|q: int| 0 <= q < self.units.len() ==> (#[trigger] out@[0]@[q]).adjacent_tuples@ == unit_shape(self.units@[q]),
                crate::ordered_card::levels_parts(later@) == ws,
                forall|q: int| 0 <= q < later.len() ==> forall|i: int| 0 <= i < (#[trigger] later@[q])@.len() ==> (#[trigger] later@[q]@[i])@.len() == 1,
                levels == seq![format_shapes(self.units@)] + ws.map_values(|p: Seq<usize>| singles_of(p)),
                out@.map_values(|l: Vec<UnitLike>| unit_shapes(l@)) == levels.take(k + 1),
            decreases later.len() - k,
        {
            let level = &later[k];
            let ghost parts = ws[k as int];
            proof {
                assert(parts == crate::ordered_card::level_parts(level@));
            }
            let mut v: Vec<UnitLike> = Vec::new();
            let mut q: usize = 0;
            while q < level.len()
                invariant
                    q <= level.len(),
                    level == &later@[k as int],
                    parts == crate::ordered_card::level_parts(level@),
                    forall|i: int| 0 <= i < level@.len() ==> (#[trigger] level@[i])@.len() == 1,
                    v.len() == q,
                    forall|i: int| 0 <= i < q ==> (#[trigger] v@[i]).adjacent_tuples@ == seq![parts[i]],
                decreases level.len() - q,
            {
                let t = clone_sizes(&level[q]);
                proof {
                    assert(level@[q as int]@ =~= seq![level@[q as int]@[0]]);
                }
                v.push(UnitLike { adjacent_tuples: t });
                q += 1;
            }
            let ghost before = out@;
            out.push(v);
            proof {
                assert(unit_shapes(v@) =~= singles_of(parts));
                assert(levels[k + 1] == singles_of(parts));
                assert(out@.map_values(|l: Vec<UnitLike>| unit_shapes(l@)) =~= levels.take(k + 2));
            }
            k += 1;
        }
        proof {
            assert(ws.len() == later.len());
            assert(levels.take(later.len() + 1) =~= levels);
        }
        out
    }
}

proof fn lemma_seq_sum_const(n: nat, c: usize)
    ensures
        crate::ordered_card::seq_sum(Seq::new(n, |i: int| c)) == c * n,
    decreases n,
{
    if n > 0 {
        let s = Seq::new(n, |i: int| c);
        assert(s.drop_last() =~= Seq::new((n - 1) as nat, |i: int| c));
        lemma_seq_sum_const((n - 1) as nat, c);
        assert(crate::ordered_card::seq_sum(s) == crate::ordered_card::seq_sum(s.drop_last()) + s.last());
        assert(s.last() == c);
        assert(c * n == c * (n - 1) + c) by (nonlinear_arith);
    } else {
        assert(crate::ordered_card::seq_sum(Seq::new(n, |i: int| c)) == 0);
    }
}

proof fn lemma_total_size_shapes(adj: Seq<Vec<usize>>, units: Seq<TrickUnit>)
    requires
        adj.len() == units.len(),
        forall|k: int| 0 <= k < adj.len() ==> (#[trigger] adj[k])@ == unit_shape(units[k]),
    ensures
        crate::ordered_card::total_size(adj) == units_size(units),
    decreases adj.len(),
{
    if adj.len() > 0 {
        lemma_total_size_shapes(adj.drop_last(), units.drop_last());
        let u = units.last();
        assert(adj.last()@ == unit_shape(u));
        match u {
            TrickUnit::Tractor { count, members } => {
                lemma_seq_sum_const(members.len() as nat, count);
            },
            TrickUnit::Repeated { count, .. } => {
                assert(seq![count].drop_last() =~= Seq::<usize>::empty());
                assert(crate::ordered_card::seq_sum(seq![count]) == crate::ordered_card::seq_sum(seq![count].drop_last()) + count);
            },
        }
    }
}

fn clone_sizes(v: &Vec<usize>) -> (r: Vec<usize>)
    ensures
        r@ == v@,
{
    let mut out: Vec<usize> = Vec::new();
    let mut i: usize = 0;
    while i < v.len()
        invariant
            i <= v.len(),
            out@ == v@.subrange(0, i as int),
        decreases v.len() - i,
    {
        out.push(v[i]);
        i += 1;
        assert(out@ =~= v@.subrange(0, i as int));
    }
    assert(v@.subrange(0, v.len() as int) =~= v@);
    out
}

proof fn lemma_units_size_prefix(s: Seq<TrickUnit>, n: int)
    requires
        0 < n <= s.len(),
        forall|i: int| 0 <= i < s.len() ==> unit_size(#[trigger] s[i]) >= 0,
    ensures
        units_size(s.subrange(0, n)) == units_size(s.subrange(0, n - 1)) + unit_size(s[n - 1]),
        units_size(s.subrange(0, n)) <= units_size(s),
    decreases s.len() - n,
{
    assert(s.subrange(0, n).drop_last() =~= s.subrange(0, n - 1));
    if n < s.len() {
        lemma_units_size_prefix(s, n + 1);
    } else {
        assert(s.subrange(0, n) =~= s);
    }
}


proof fn lemma_members_use_front(ms: Seq<OrderedCard>, w: nat, c: Card)
    requires
        ms.len() > 0,
    ensures
        members_use(ms, w, c) == (if ms[0].card == c { w } else { 0nat }) + members_use(ms.drop_first(), w, c),
    decreases ms.len(),
{
    if ms.len() > 1 {
        lemma_members_use_front(ms.drop_last(), w, c);
        assert(ms.drop_last().drop_first() =~= ms.drop_first().drop_last());
        assert(ms.drop_first().last() == ms.last());
    } else {
        assert(ms.drop_first() =~= Seq::<OrderedCard>::empty());
        assert(ms.drop_last() =~= Seq::<OrderedCard>::empty());
    }
}

proof fn lemma_matching_as_members(m: Seq<(OrderedCard, usize)>, w: usize, c: Card)
    requires
        forall|j: int| 0 <= j < m.len() ==> (#[trigger] m[j]).1 == w,
    ensures
        crate::ordered_card::matching_use(m, c) == members_use(m.map_values(|p: (OrderedCard, usize)| p.0), w as nat, c),
    decreases m.len(),
{
    let ms = m.map_values(|p: (OrderedCard, usize)| p.0);
    if m.len() > 0 {
        lemma_members_use_front(ms, w as nat, c);
        assert(ms.drop_first() =~= m.drop_first().map_values(|p: (OrderedCard, usize)| p.0));
        lemma_matching_as_members(m.drop_first(), w, c);
    } else {
        assert(ms =~= Seq::<OrderedCard>::empty());
    }
}

/// The unit made of some matched cards: one card repeated, or a tractor as
/// wide as its narrowest member.
fn unit_of_matching(m: &MatchingCards) -> (r: TrickUnit)
    requires
        m.len() >= 1,
        m.len() >= 2 ==> forall|j: int| 0 <= j < m.len() ==> (#[trigger] m@[j]).1 == m@[0].1,
    ensures
        unit_shape(r) =~= m@.map_values(|p: (OrderedCard, usize)| p.1),
        forall|c: Card| #[trigger] unit_use(r, c) == crate::ordered_card::matching_use(m@, c),
        m.len() >= 2 ==> (r matches TrickUnit::Tractor { members, .. } && members@ == m@.map_values(|p: (OrderedCard, usize)| p.0)),
        m.len() == 1 ==> r == (TrickUnit::Repeated { count: m@[0].1, card: m@[0].0 }),
{
    if m.len() == 1 {
        let (card, count) = m[0];
        proof {
            assert forall|c: Card| #[trigger] unit_use(TrickUnit::Repeated { count, card }, c) == crate::ordered_card::matching_use(m@, c) by {
                assert(m@.drop_first() =~= Seq::<(OrderedCard, usize)>::empty());
                assert(crate::ordered_card::matching_use(m@.drop_first(), c) == 0);
            }
        }
        TrickUnit::Repeated { count, card }
    } else {
        let mut min = m[0].1;
        let mut members: Vec<OrderedCard> = Vec::new();
        let mut j: usize = 0;
        while j < m.len()
            invariant
                j <= m.len(),
                m.len() >= 2,
                forall|q: int| 0 <= q < m.len() ==> (#[trigger] m@[q]).1 == m@[0].1,
                min == m@[0].1,
                members@ == m@.subrange(0, j as int).map_values(|p: (OrderedCard, usize)| p.0),
            decreases m.len() - j,
        {
            if m[j].1 < min {
                min = m[j].1;
            }
            members.push(m[j].0);
            j += 1;
            assert(members@ =~= m@.subrange(0, j as int).map_values(|p: (OrderedCard, usize)| p.0));
        }
        assert(m@.subrange(0, m.len() as int) =~= m@);
        proof {
            assert forall|c: Card| #[trigger] unit_use(TrickUnit::Tractor { count: min, members }, c) == crate::ordered_card::matching_use(m@, c) by {
                lemma_matching_as_members(m@, min, c);
            }
        }
        TrickUnit::Tractor { count: min, members }
    }
}

proof fn lemma_count_in_suit_prefix(t: Trump, s: Seq<Card>, suit: EffectiveSuit, n: int)
    requires
        0 < n <= s.len(),
    ensures
        count_in_suit(t, s.subrange(0, n), suit) == count_in_suit(t, s.subrange(0, n - 1), suit) + (if effective_suit_of(t, s[n - 1]) == suit { 1nat } else { 0nat }),
{
    assert(s.subrange(0, n).drop_last() =~= s.subrange(0, n - 1));
}

/// The number of cards of a slice with an effective suit.
pub(crate) fn count_suit(trump: Trump, cards: &[Card], suit: EffectiveSuit) -> (r: usize)
    ensures
        r == count_in_suit(trump, cards@, suit),
        r <= cards.len(),
{
    let mut n: usize = 0;
    let mut i: usize = 0;
    while i < cards.len()
        invariant
            i <= cards.len(),
            n <= i,
            n == count_in_suit(trump, cards@.subrange(0, i as int), suit),
        decreases cards.len() - i,
    {
        proof {
            lemma_count_in_suit_prefix(trump, cards@, suit, i + 1);
        }
        if trump.effective_suit(cards[i]) == suit {
            n += 1;
        }
        i += 1;
    }
    assert(cards@.subrange(0, cards.len() as int) =~= cards@);
    n
}

/// Whether all cards of a slice have the same effective suit as the first.
pub(crate) fn one_suit(trump: Trump, cards: &[Card]) -> (r: bool)
    requires
        cards.len() > 0,
    ensures
        r == all_in_suit(trump, cards@, effective_suit_of(trump, cards@[0])),
{
    let suit = trump.effective_suit(cards[0]);
    let mut i: usize = 0;
    while i < cards.len()
        invariant
            i <= cards.len(),
            cards.len() > 0,
            suit == effective_suit_of(trump, cards@[0]),
            forall|k: int| 0 <= k < i ==> effective_suit_of(trump, #[trigger] cards@[k]) == suit,
        decreases cards.len() - i,
    {
        if trump.effective_suit(cards[i]) != suit {
            return false;
        }
        i += 1;
    }
    true
}

impl TrickFormat {
    /// Matches a play against the format. The play must be of the format's
    /// suit (or trump), all of one effective suit, and as large as the
    /// format; it then succeeds when its cards can be grouped into units of
    /// the format's shapes, and returns those units.
    pub fn matches(&self, cards: &[Card]) -> (r: Result<Units, TrickError>)
        requires
            cards.len() > 0,
            units_size(self.units@) <= usize::MAX,
            forall|i: int| 0 <= i < self.units@.len() ==> unit_valid(self.trump, #[trigger] self.units@[i]),
        ensures
            ({
                let s = effective_suit_of(self.trump, cards@[0]);
                (!all_in_suit(self.trump, cards@, s) || (s != self.suit && s != EffectiveSuit::Trump) || cards.len() != units_size(self.units@))
                    ==> r == Err::<Units, TrickError>(TrickError::NonMatchingPlay)
            }),
            r matches Err(e) ==> e == TrickError::NonMatchingPlay,
            r is Ok <==> follows_format(*self, cards@),
            r matches Ok(found) ==> {
                &&& found.len() == self.units.len()
                &&& forall|i: int| 0 <= i < found.len() ==> unit_shape(#[trigger] found@[i]) =~= unit_shape(self.units@[i])
                &&& forall|c: Card| units_use(found@, c) <= crate::types::occurrences(cards@, c)
            },
    {
        let suit = self.trump.effective_suit(cards[0]);
        if !one_suit(self.trump, cards) {
            return Err(TrickError::NonMatchingPlay);
        }
        if suit != self.suit && suit != EffectiveSuit::Trump {
            return Err(TrickError::NonMatchingPlay);
        }
        proof {
            assert forall|i: int| 0 <= i < self.units@.len() implies unit_size(#[trigger] self.units@[i]) >= 0 by {
                match self.units@[i] {
                    TrickUnit::Tractor { count, members } => {
                        assert(count * members.len() >= 0) by (nonlinear_arith);
                    },
                    _ => {},
                }
            }
        }
        if cards.len() != self.size() {
            return Err(TrickError::NonMatchingPlay);
        }
        let mut shapes: Vec<UnitLike> = Vec::new();
        let mut i: usize = 0;
        while i < self.units.len()
            invariant
                i <= self.units.len(),
                shapes.len() == i,
                forall|k: int| 0 <= k < i ==> (#[trigger] shapes@[k]).adjacent_tuples@ == unit_shape(self.units@[k]),
            decreases self.units.len() - i,
        {
            shapes.push(UnitLike::from_unit(&self.units[i]));
            i += 1;
        }
        let (found, matchings) = UnitLike::check_play(self.trump, cards, shapes.as_slice(), TrickDrawPolicy::NoProtections);
        proof {
            assert(unit_shapes(shapes@) =~= format_shapes(self.units@));
        }
        if !found {
            return Err(TrickError::NonMatchingPlay);
        }
        let mut units: Units = Vec::new();
        let mut k: usize = 0;
        while k < matchings.len()
            invariant
                k <= matchings.len(),
                matchings.len() == self.units.len(),
                shapes.len() == self.units.len(),
                forall|q: int| 0 <= q < shapes.len() ==> (#[trigger] shapes@[q]).adjacent_tuples@ == unit_shape(self.units@[q]),
                forall|q: int| 0 <= q < matchings.len() ==> matches_shape(self.trump, (#[trigger] matchings@[q])@, shapes@[q].adjacent_tuples@),
                forall|q: int| 0 <= q < self.units@.len() ==> unit_valid(self.trump, #[trigger] self.units@[q]),
                units.len() == k,
                forall|q: int| 0 <= q < k ==> unit_shape(#[trigger] units@[q]) =~= unit_shape(self.units@[q]),
                forall|c: Card| units_use(units@, c) == crate::ordered_card::matchings_use(matchings@.subrange(0, k as int), c),
            decreases matchings.len() - k,
        {
            let m = &matchings[k];
            proof {
                let shape = unit_shape(self.units@[k as int]);
                assert(m@.len() == shape.len());
                match self.units@[k as int] {
                    TrickUnit::Tractor { count, members } => {
                        assert forall|j: int| 0 <= j < m@.len() implies (#[trigger] m@[j]).1 == m@[0].1 by {
                            assert(m@[j].1 == shape[j]);
                            assert(m@[0].1 == shape[0]);
                        }
                    },
                    _ => {},
                }
            }
            let u = unit_of_matching(m);
            let ghost before = units@;
            units.push(u);
            proof {
                lemma_units_push(before, u);
                assert(unit_shape(u) =~= m@.map_values(|p: (OrderedCard, usize)| p.1));
                let shape = unit_shape(self.units@[k as int]);
                assert(m@.map_values(|p: (OrderedCard, usize)| p.1) =~= shape);
                lemma_matchings_use_prefix(matchings@, k as int + 1);
                assert forall|q: int| 0 <= q < k + 1 implies unit_shape(#[trigger] units@[q]) =~= unit_shape(self.units@[q]) by {
                    if q < k {
                        assert(units@[q] == before[q]);
                    }
                }
            }
            k += 1;
        }
        assert(matchings@.subrange(0, matchings.len() as int) =~= matchings@);
        Ok(units)
    }
}

proof fn lemma_matchings_use_prefix(ms: Seq<Vec<(OrderedCard, usize)>>, n: int)
    requires
        0 < n <= ms.len(),
    ensures
        forall|c: Card| #[trigger] crate::ordered_card::matchings_use(ms.subrange(0, n), c) == crate::ordered_card::matchings_use(ms.subrange(0, n - 1), c)
            + crate::ordered_card::matching_use(ms[n - 1]@, c),
    decreases n,
{
    if n == 1 {
        assert forall|c: Card| #[trigger] crate::ordered_card::matchings_use(ms.subrange(0, n), c) == crate::ordered_card::matchings_use(ms.subrange(0, n - 1), c)
            + crate::ordered_card::matching_use(ms[n - 1]@, c) by {
            assert(ms.subrange(0, 1).drop_first() =~= Seq::<Vec<(OrderedCard, usize)>>::empty());
            assert(ms.subrange(0, 0) =~= Seq::<Vec<(OrderedCard, usize)>>::empty());
        }
    } else {
        let tail = ms.drop_first();
        lemma_matchings_use_prefix(tail, n - 1);
        assert forall|c: Card| #[trigger] crate::ordered_card::matchings_use(ms.subrange(0, n), c) == crate::ordered_card::matchings_use(ms.subrange(0, n - 1), c)
            + crate::ordered_card::matching_use(ms[n - 1]@, c) by {
            assert(ms.subrange(0, n).drop_first() =~= tail.subrange(0, n - 1));
            assert(ms.subrange(0, n - 1).drop_first() =~= tail.subrange(0, n - 2));
            assert(ms.subrange(0, n)[0] == ms[0]);
            assert(ms.subrange(0, n - 1)[0] == ms[0]);
            assert(tail[n - 2] == ms[n - 1]);
            assert(crate::ordered_card::matchings_use(tail.subrange(0, n - 1), c) == crate::ordered_card::matchings_use(tail.subrange(0, n - 2), c)
                + crate::ordered_card::matching_use(tail[n - 2]@, c));
            assert(crate::ordered_card::matchings_use(ms.subrange(0, n), c) == crate::ordered_card::matching_use(ms[0]@, c)
                + crate::ordered_card::matchings_use(tail.subrange(0, n - 1), c));
            assert(crate::ordered_card::matchings_use(ms.subrange(0, n - 1), c) == crate::ordered_card::matching_use(ms[0]@, c)
                + crate::ordered_card::matchings_use(tail.subrange(0, n - 2), c));
        }
    }
}


/// Two lists of units that hold the same units in the same order.
pub open spec fn units_same(a: Seq<TrickUnit>, b: Seq<TrickUnit>) -> bool {
    &&& a.len() == b.len()
    &&& forall|i: int| 0 <= i < a.len() ==> (#[trigger] a[i]).same_as(b[i])
}

fn members_equal(ma: &Vec<OrderedCard>, mb: &Vec<OrderedCard>) -> (r: bool)
    ensures
        r == (ma@ == mb@),
{
    if ma.len() != mb.len() {
        return false;
    }
    let mut j: usize = 0;
    while j < ma.len()
        invariant
            j <= ma.len(),
            ma.len() == mb.len(),
            forall|q: int| 0 <= q < j ==> (#[trigger] ma@[q]) == mb@[q],
        decreases ma.len() - j,
    {
        if ma[j] != mb[j] {
            assert(ma@[j as int] != mb@[j as int]);
            return false;
        }
        j += 1;
    }
    assert(ma@ =~= mb@);
    true
}

fn unit_equal(a: &TrickUnit, b: &TrickUnit) -> (r: bool)
    ensures
        r == a.same_as(*b),
{
    match (a, b) {
        (TrickUnit::Tractor { count: ca, members: ma }, TrickUnit::Tractor { count: cb, members: mb }) => *ca == *cb && members_equal(ma, mb),
        (TrickUnit::Repeated { count: ca, card: xa }, TrickUnit::Repeated { count: cb, card: xb }) => *ca == *cb && *xa == *xb,
        _ => false,
    }
}

fn units_equal(a: &[TrickUnit], b: &[TrickUnit]) -> (r: bool)
    ensures
        r == units_same(a@, b@),
{
    if a.len() != b.len() {
        return false;
    }
    let mut i: usize = 0;
    while i < a.len()
        invariant
            i <= a.len(),
            a.len() == b.len(),
            forall|q: int| 0 <= q < i ==> (#[trigger] a@[q]).same_as(b@[q]),
        decreases a.len() - i,
    {
        if !unit_equal(&a[i], &b[i]) {
            return false;
        }
        i += 1;
    }
    true
}

/// How a unit ranks when the first play of a trick is read without a hint:
/// larger units first, and a tractor over other units of its size.
pub open spec fn unit_rank(u: TrickUnit) -> int {
    2 * unit_size(u) + (if u is Tractor { 1int } else { 0int })
}

/// The rank of the best unit of a play, or -1 for no unit.
pub open spec fn play_rank(us: Seq<TrickUnit>) -> int
    decreases us.len(),
{
    if us.len() == 0 {
        -1
    } else {
        let r = play_rank(us.drop_last());
        let x = unit_rank(us.last());
        if x > r { x } else { r }
    }
}

pub(crate) proof fn lemma_unit_size_nonneg(u: TrickUnit)
    ensures
        unit_size(u) >= 0,
{
    match u {
        TrickUnit::Tractor { count, members } => {
            assert(count * members.len() >= 0) by (nonlinear_arith);
        },
        _ => {},
    }
}

pub(crate) proof fn lemma_units_size_bound(us: Seq<TrickUnit>)
    ensures
        units_size(us) >= 0,
        forall|i: int| 0 <= i < us.len() ==> unit_size(#[trigger] us[i]) <= units_size(us),
    decreases us.len(),
{
    if us.len() > 0 {
        lemma_units_size_bound(us.drop_last());
        lemma_unit_size_nonneg(us.last());
        assert forall|i: int| 0 <= i < us.len() implies unit_size(#[trigger] us[i]) <= units_size(us) by {
            lemma_unit_size_nonneg(us[i]);
            if i < us.len() - 1 {
                assert(us[i] == us.drop_last()[i]);
            }
        }
    }
}

/// The rank of the best unit of a play, plus one.
fn play_rank_of(us: &[TrickUnit]) -> (r: u128)
    requires
        forall|i: int| 0 <= i < us.len() ==> unit_size(#[trigger] us@[i]) <= usize::MAX,
    ensures
        r == play_rank(us@) + 1,
{
    let mut best: u128 = 0;
    let mut i: usize = 0;
    while i < us.len()
        invariant
            i <= us.len(),
            forall|k: int| 0 <= k < us.len() ==> unit_size(#[trigger] us@[k]) <= usize::MAX,
            best == play_rank(us@.subrange(0, i as int)) + 1,
        decreases us.len() - i,
    {
        proof {
            lemma_unit_size_nonneg(us@[i as int]);
            assert(us@.subrange(0, i + 1).drop_last() =~= us@.subrange(0, i as int));
        }
        let size = us[i].size() as u128;
        let x: u128 = 2 * size + if us[i].is_tractor() { 1 } else { 0 } + 1;
        if x > best {
            best = x;
        }
        i += 1;
    }
    assert(us@.subrange(0, us.len() as int) =~= us@);
    best
}

impl TrickFormat {
    /// Reads the format of a trick from its first play. The cards must all
    /// be of one effective suit. With a proposed format, the play must split
    /// into exactly those units; without one, the way of splitting it whose
    /// largest unit is largest (a tractor first among equals) is taken. The
    /// units of the format are listed by size, then by their weakest card.
    #[verifier::rlimit(40)]
    pub fn from_cards(trump: Trump, cards: &[Card], proposed: Option<&[TrickUnit]>) -> (r: Result<TrickFormat, TrickError>)
        requires
            proposed matches Some(p) ==> forall|i: int| 0 <= i < p.len() ==> unit_sizable(#[trigger] p@[i]),
        ensures
            (cards.len() == 0 || !all_in_suit(trump, cards@, effective_suit_of(trump, cards@[0])))
                <==> r == Err::<TrickFormat, TrickError>(TrickError::WrongNumberOfSuits),
            r matches Ok(tf) ==> {
                &&& tf.trump == trump
                &&& tf.suit == effective_suit_of(trump, cards@[0])
                &&& units_sorted(tf.units@)
                &&& forall|i: int| 0 <= i < tf.units.len() ==> unit_valid(trump, #[trigger] tf.units@[i])
                &&& forall|c: Card| units_use(tf.units@, c) <= crate::types::occurrences(cards@, c)
                &&& units_size(tf.units@) == cards.len()
            },
            proposed is None ==> (r is Ok || r == Err::<TrickFormat, TrickError>(TrickError::IllegalPlay)
                || r == Err::<TrickFormat, TrickError>(TrickError::WrongNumberOfSuits)),
            proposed matches Some(p) ==> (r is Ok || r == Err::<TrickFormat, TrickError>(TrickError::NonMatchingProposal)
                || r == Err::<TrickFormat, TrickError>(TrickError::WrongNumberOfSuits)),
            proposed matches Some(p) ==> (r matches Ok(tf) ==> {
                &&& tf.units.len() == p.len()
                &&& forall|c: Card| #[trigger] units_use(tf.units@, c) == units_use(p@, c)
                &&& forall|i: int| 0 <= i < tf.units.len() ==> exists|j: int| 0 <= j < p.len() && (#[trigger] tf.units@[i]).same_as(p@[j])
            }),
    {
        if cards.len() == 0 {
            return Err(TrickError::WrongNumberOfSuits);
        }
        let suit = trump.effective_suit(cards[0]);
        if !one_suit(trump, cards) {
            return Err(TrickError::WrongNumberOfSuits);
        }
        let possibilities = TrickUnit::find_plays(trump, vstd::slice::slice_to_vec(cards));
        match proposed {
            Some(p) => {
                let mut pv: Vec<TrickUnit> = Vec::new();
                let mut i: usize = 0;
                while i < p.len()
                    invariant
                        i <= p.len(),
                        pv.len() == i,
                        forall|q: int| 0 <= q < i ==> (#[trigger] pv@[q]).same_as(p@[q]),
                    decreases p.len() - i,
                {
                    pv.push(p[i].clone());
                    i += 1;
                }
                proof {
                    assert forall|q: int| 0 <= q < pv.len() implies unit_sizable(#[trigger] pv@[q]) by {
                        assert(pv@[q].same_as(p@[q]));
                    }
                    lemma_same_units_use(pv@, p@);
                }
                let ghost pv0 = pv@;
                let sorted = sort_units(pv);
                proof {
                    assert forall|q: int| 0 <= q < sorted.len() implies exists|j: int| 0 <= j < p.len() && (#[trigger] sorted@[q]).same_as(p@[j]) by {
                        let j = choose|j: int| 0 <= j < pv0.len() && sorted@[q] == pv0[j];
                        assert(pv0[j].same_as(p@[j]));
                    }
                }
                let mut k: usize = 0;
                while k < possibilities.len()
                    invariant
                        k <= possibilities.len(),
                        cards.len() > 0,
                        suit == effective_suit_of(trump, cards@[0]),
                        all_in_suit(trump, cards@, suit),
                        proposed == Some(p),
                        sorted.len() == p.len(),
                        units_sorted(sorted@),
                        forall|c: Card| #[trigger] units_use(sorted@, c) == units_use(p@, c),
                        forall|q: int| 0 <= q < sorted.len() ==> exists|j: int| 0 <= j < p.len() && (#[trigger] sorted@[q]).same_as(p@[j]),
                        forall|q: int| 0 <= q < possibilities.len() ==> {
                            let play = (#[trigger] possibilities@[q])@;
                            &&& forall|i: int| 0 <= i < play.len() ==> unit_valid(trump, #[trigger] play[i])
                            &&& forall|c: Card| units_use(play, c) <= crate::types::occurrences(cards@, c)
                            &&& units_size(play) == cards.len()
                        },
                    decreases possibilities.len() - k,
                {
                    let cand = clone_units(&possibilities[k]);
                    let ghost play = possibilities@[k as int]@;
                    proof {
                        lemma_units_size_bound(play);
                        lemma_same_units_use(cand@, play);
                        assert forall|q: int| 0 <= q < cand.len() implies unit_sizable(#[trigger] cand@[q]) by {
                            assert(cand@[q].same_as(play[q]));
                            assert(unit_valid(trump, play[q]));
                            assert(unit_size(play[q]) <= units_size(play));
                        }
                    }
                    let cand_sorted = sort_units(cand);
                    if units_equal(cand_sorted.as_slice(), sorted.as_slice()) {
                        proof {
                            lemma_same_units_use(sorted@, cand_sorted@);
                            assert forall|q: int| 0 <= q < sorted.len() implies unit_valid(trump, #[trigger] sorted@[q]) by {
                                assert(cand_sorted@[q].same_as(sorted@[q]));
                                let j = choose|j: int| 0 <= j < cand.len() && cand_sorted@[q] == cand@[j];
                                assert(cand@[j].same_as(play[j]));
                                assert(unit_valid(trump, play[j]));
                            }
                        }
                        let tf = TrickFormat { suit, units: sorted, trump };
                        assert(tf.units@ == sorted@);
                        assert(tf.units.len() == p.len());
                        assert(forall|c: Card| #[trigger] units_use(tf.units@, c) == units_use(p@, c));
                        assert(forall|q: int| 0 <= q < tf.units.len() ==> exists|j: int| 0 <= j < p.len() && (#[trigger] tf.units@[q]).same_as(p@[j]));
                        return Ok(tf);
                    }
                    k += 1;
                }
                Err(TrickError::NonMatchingProposal)
            },
            None => {
                let mut best: Option<usize> = None;
                let mut best_rank: u128 = 0;
                let mut k: usize = 0;
                while k < possibilities.len()
                    invariant
                        k <= possibilities.len(),
                        best matches Some(b) ==> b < k,
                        forall|q: int| 0 <= q < possibilities.len() ==> {
                            let play = (#[trigger] possibilities@[q])@;
                            &&& forall|i: int| 0 <= i < play.len() ==> unit_valid(trump, #[trigger] play[i])
                            &&& forall|c: Card| units_use(play, c) <= crate::types::occurrences(cards@, c)
                            &&& units_size(play) == cards.len()
                        },
                    decreases possibilities.len() - k,
                {
                    let ghost play = possibilities@[k as int]@;
                    proof {
                        lemma_units_size_bound(play);
                    }
                    let rank = play_rank_of(possibilities[k].as_slice());
                    if best.is_none() || rank >= best_rank {
                        best = Some(k);
                        best_rank = rank;
                    }
                    k += 1;
                }
                match best {
                    None => Err(TrickError::IllegalPlay),
                    Some(b) => {
                        let units = clone_units(&possibilities[b]);
                        let ghost play = possibilities@[b as int]@;
                        proof {
                            lemma_units_size_bound(play);
                            lemma_same_units_use(units@, play);
                            assert forall|q: int| 0 <= q < units.len() implies unit_sizable(#[trigger] units@[q]) && unit_valid(trump, units@[q]) by {
                                assert(units@[q].same_as(play[q]));
                                assert(unit_valid(trump, play[q]));
                                assert(unit_size(play[q]) <= units_size(play));
                            }
                        }
                        let sorted = sort_units(units);
                        proof {
                            assert forall|q: int| 0 <= q < sorted.len() implies unit_valid(trump, #[trigger] sorted@[q]) by {
                                let j = choose|j: int| 0 <= j < units.len() && sorted@[q] == units@[j];
                            }
                        }
                        Ok(TrickFormat { suit, units: sorted, trump })
                    },
                }
            },
        }
    }
}

/// Units that are the same unit by unit take the same cards and have the
/// same size.
proof fn lemma_same_units_use(a: Seq<TrickUnit>, b: Seq<TrickUnit>)
    requires
        units_same(a, b),
    ensures
        forall|c: Card| #[trigger] units_use(a, c) == units_use(b, c),
        units_size(a) == units_size(b),
    decreases a.len(),
{
    if a.len() > 0 {
        assert forall|i: int| 0 <= i < a.drop_last().len() implies (#[trigger] a.drop_last()[i]).same_as(b.drop_last()[i]) by {
            assert(a[i].same_as(b[i]));
        }
        lemma_same_units_use(a.drop_last(), b.drop_last());
        assert(a.last().same_as(b.last()));
        assert forall|c: Card| #[trigger] units_use(a, c) == units_use(b, c) by {
            assert(units_use(a.drop_last(), c) == units_use(b.drop_last(), c));
            assert(unit_use(a.last(), c) == unit_use(b.last(), c));
        }
    }
}


/// The counted cards of one effective suit, and how many they are.
pub(crate) fn counts_in_suit(trump: Trump, hand: &CardCounts, suit: EffectiveSuit) -> (r: (CardCounts, u128))
    ensures
        forall|c: Card| #[trigger] r.0.count(c) == (if effective_suit_of(trump, c) == suit { hand.count(c) } else { 0nat }),
        r.1 == held_in_suit(trump, *hand, suit, 55),
{
    let mut out = CardCounts::new();
    let mut total: u128 = 0;
    let mut i: usize = 0;
    while i < 55
        invariant
            i <= 55,
            total == held_in_suit(trump, *hand, suit, i as int),
            total <= i * 0x1_0000_0000_0000_0000,
            forall|c: Card| crate::types::card_slot(c) < i ==> #[trigger] out.count(c) == (if effective_suit_of(trump, c) == suit { hand.count(c) } else { 0nat }),
            forall|c: Card| crate::types::card_slot(c) >= i ==> #[trigger] out.count(c) == 0,
        decreases 55 - i,
    {
        let card = Card::at_slot(i);
        if trump.effective_suit(card) == suit {
            let n = hand.get(card);
            out.add(card, n);
            total = total + n as u128;
        }
        i += 1;
    }
    proof {
        assert forall|c: Card| #[trigger] out.count(c) == (if effective_suit_of(trump, c) == suit { hand.count(c) } else { 0nat }) by {
            crate::types::lemma_slot_roundtrip(c);
        }
    }
    (out, total)
}

impl TrickFormat {
    /// Whether a player holding `hand` may follow this format with the
    /// proposed cards. The play must have the format's size. A player short of
    /// the format's suit must play all the cards of it they hold. A player who
    /// has enough must, unless the policy forbids format-based draws, follow
    /// the first shape of the decomposition that either the play matches or
    /// their hand could.
    pub fn is_legal_play(&self, hand: &CardCounts, proposed: &[Card], trick_draw_policy: TrickDrawPolicy) -> (r: bool)
        requires
            units_size(self.units@) <= usize::MAX,
        ensures
            proposed.len() != units_size(self.units@) ==> !r,
            proposed.len() == units_size(self.units@) && count_in_suit(self.trump, proposed@, self.suit) < proposed.len()
                ==> r == (held_in_suit(self.trump, *hand, self.suit, 55) == count_in_suit(self.trump, proposed@, self.suit)),
            proposed.len() == units_size(self.units@) && count_in_suit(self.trump, proposed@, self.suit) >= proposed.len()
                && trick_draw_policy == TrickDrawPolicy::NoFormatBasedDraw ==> r,
            proposed.len() == units_size(self.units@) && count_in_suit(self.trump, proposed@, self.suit) >= proposed.len()
                && trick_draw_policy != TrickDrawPolicy::NoFormatBasedDraw ==> r == follows_levels(self.trump, proposed@,
                    suit_held(self.trump, *hand, self.suit), format_levels(self.units@), trick_draw_policy == TrickDrawPolicy::LongerTuplesProtected),
            r == legal_play(*self, *hand, proposed@, trick_draw_policy),
    {
        proof {
            assert forall|i: int| 0 <= i < self.units@.len() implies unit_size(#[trigger] self.units@[i]) >= 0 by {
                lemma_unit_size_nonneg(self.units@[i]);
            }
        }
        let required = self.size();
        if proposed.len() != required {
            return false;
        }
        let num_proposed_correct_suit = count_suit(self.trump, proposed, self.suit);
        if num_proposed_correct_suit < required {
            let (_, num_correct_suit) = counts_in_suit(self.trump, hand, self.suit);
            return num_correct_suit == num_proposed_correct_suit as u128;
        }
        if trick_draw_policy == TrickDrawPolicy::NoFormatBasedDraw {
            return true;
        }
        let (in_suit, _) = counts_in_suit(self.trump, hand, self.suit);
        let available_cards = Card::cards(&in_suit);
        let requirements = self.decomposition(trick_draw_policy);
        let ghost held = suit_held(self.trump, *hand, self.suit);
        let ghost levels = format_levels(self.units@);
        let ghost protect = trick_draw_policy == TrickDrawPolicy::LongerTuplesProtected;
        proof {
            assert forall|c: Card| #[trigger] occ_of(available_cards@)(c) == held(c) by {
                assert(in_suit.count(c) == (if effective_suit_of(self.trump, c) == self.suit { hand.count(c) } else { 0nat }));
            }
            assert(occ_of(available_cards@) =~= held);
            assert(levels.skip(0) =~= levels);
        }
        let mut i: usize = 0;
        while i < requirements.len()
            invariant
                i <= requirements.len(),
                proposed.len() == units_size(self.units@),
                count_in_suit(self.trump, proposed@, self.suit) >= proposed.len(),
                trick_draw_policy != TrickDrawPolicy::NoFormatBasedDraw,
                occ_of(available_cards@) == held,
                held == suit_held(self.trump, *hand, self.suit),
                levels == format_levels(self.units@),
                protect == (trick_draw_policy == TrickDrawPolicy::LongerTuplesProtected),
                requirements@.map_values(|l: Vec<UnitLike>| unit_shapes(l@)) == levels,
                follows_levels(self.trump, proposed@, held, levels, protect)
                    == follows_levels(self.trump, proposed@, held, levels.skip(i as int), protect),
            decreases requirements.len() - i,
        {
            let requirement = &requirements[i];
            proof {
                assert(levels.skip(i as int)[0] == unit_shapes(requirement@));
                assert(levels.skip(i as int).drop_first() =~= levels.skip(i + 1));
            }
            let ghost rest = levels.skip(i as int);
            let (play_matches, _) = UnitLike::check_play(self.trump, proposed, requirement.as_slice(), TrickDrawPolicy::NoProtections);
            if play_matches {
                assert(follows_levels(self.trump, proposed@, held, rest, protect));
                return true;
            }
            let (hand_can_play, _) = UnitLike::check_play(self.trump, available_cards.as_slice(), requirement.as_slice(), trick_draw_policy);
            if hand_can_play {
                assert(!follows_levels(self.trump, proposed@, held, rest, protect));
                return false;
            }
            assert(follows_levels(self.trump, proposed@, held, rest, protect)
                == follows_levels(self.trump, proposed@, held, levels.skip(i + 1), protect));
            i += 1;
        }
        proof {
            assert(levels.skip(i as int).len() == 0);
        }
        true
    }
}


/// The size of a unit is the sum of its shape, which has one entry per
/// member (one for a repeated card).
pub(crate) proof fn lemma_unit_size_shape(u: TrickUnit)
    ensures
        unit_size(u) == crate::ordered_card::seq_sum(unit_shape(u)),
        u matches TrickUnit::Tractor { members, .. } ==> unit_shape(u).len() == members@.len(),
        u is Repeated ==> unit_shape(u).len() == 1,
{
    match u {
        TrickUnit::Tractor { count, members } => {
            let n = members@.len();
            lemma_seq_sum_const(n, count);
            assert(unit_shape(u) =~= Seq::new(n, |i: int| count));
            assert(crate::ordered_card::seq_sum(unit_shape(u)) == count * n);
            assert(unit_size(u) == count * n);
        },
        TrickUnit::Repeated { count, .. } => {
            let sh = unit_shape(u);
            assert(sh.len() == 1);
            assert(sh.drop_last() =~= Seq::<usize>::empty());
            assert(crate::ordered_card::seq_sum(sh.drop_last()) == 0);
            assert(sh.last() == count);
        },
    }
}

} // verus!
