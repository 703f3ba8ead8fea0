//! Cards ordered by a trump, and the search for groups of adjacent tuples
//! (tractors, pairs, singles) inside a collection of cards.

use std::cmp::Ordering;

use vstd::prelude::*;

use crate::types::{
    card_slot, effective_key, lemma_slot_roundtrip, lemma_successor_stronger, lemma_total_key_injective,
    ordering_of, successors_of, total_key, Card, CardCounts, Trump,
};

verus! {

/// A card together with the trump that orders it.
#[derive(Debug, Copy, Clone, Hash, PartialEq, Eq, Structural)]
pub struct OrderedCard {
    pub card: Card,
    pub trump: Trump,
}

/// Sizes of adjacent tuples: `[2, 2]` is a tractor of two pairs, `[3]` a triple.
pub type AdjacentTupleSizes = Vec<usize>;

/// Cards matched against a group of adjacent tuples, with the number of
/// copies of each card taken.
pub type MatchingCards = Vec<(OrderedCard, usize)>;

pub open spec fn ordered_successors(oc: OrderedCard) -> Seq<OrderedCard> {
    successors_of(oc.trump, oc.card).map_values(|c: Card| OrderedCard { card: c, trump: oc.trump })
}

impl OrderedCard {
    /// The cards that directly follow this one when forming tractors.
    pub fn successor(self) -> (r: Vec<OrderedCard>)
        ensures
            r@ == ordered_successors(self),
    {
        let cards = self.trump.successor(self.card);
        let mut out: Vec<OrderedCard> = Vec::new();
        let mut i: usize = 0;
        while i < cards.len()
            invariant
                i <= cards.len(),
                cards@ == successors_of(self.trump, self.card),
                out@ == cards@.subrange(0, i as int).map_values(|c: Card| OrderedCard { card: c, trump: self.trump }),
            decreases cards.len() - i,
        {
            out.push(OrderedCard { card: cards[i], trump: self.trump });
            i += 1;
            assert(out@ =~= cards@.subrange(0, i as int).map_values(|c: Card| OrderedCard { card: c, trump: self.trump }));
        }
        assert(cards@.subrange(0, cards.len() as int) =~= cards@);
        out
    }

    /// Compares by effective suit and strength only.
    pub fn cmp_effective(self, o: OrderedCard) -> (r: Ordering)
        ensures
            r == ordering_of(effective_key(self.trump, self.card), effective_key(self.trump, o.card)),
    {
        self.trump.compare_effective(self.card, o.card)
    }

    /// Compares by the full trump order; only identical cards are equal.
    pub fn compare(self, o: OrderedCard) -> (r: Ordering)
        ensures
            r == ordering_of(total_key(self.trump, self.card), total_key(self.trump, o.card)),
    {
        self.trump.compare(self.card, o.card)
    }
}

/// Whether a card is a candidate: at least `need` copies are counted and its
/// key is at least `min_key`.
pub open spec fn is_candidate(counts: CardCounts, t: Trump, min_key: int, need: nat, c: Card) -> bool {
    counts.count(c) >= need && total_key(t, c) >= min_key
}

/// The weakest card, in the full trump order, with at least `need` copies
/// counted and a key of at least `min_key`.
pub fn weakest_from(counts: &CardCounts, trump: Trump, min_key: u64, need: usize) -> (r: Option<Card>)
    ensures
        r matches Some(c) ==> is_candidate(*counts, trump, min_key as int, need as nat, c)
            && forall|d: Card| is_candidate(*counts, trump, min_key as int, need as nat, d) ==> total_key(trump, c) <= total_key(trump, d),
        r is None ==> forall|d: Card| !is_candidate(*counts, trump, min_key as int, need as nat, d),
{
    let mut best: Option<Card> = None;
    let mut best_key: u64 = 0;
    let mut i: usize = 0;
    while i < 55
        invariant
            i <= 55,
            best matches Some(c) ==> is_candidate(*counts, trump, min_key as int, need as nat, c) && best_key == total_key(trump, c)
                && forall|d: Card| card_slot(d) < i && is_candidate(*counts, trump, min_key as int, need as nat, d) ==> total_key(trump, c) <= total_key(trump, d),
            best is None ==> forall|d: Card| card_slot(d) < i ==> !is_candidate(*counts, trump, min_key as int, need as nat, d),
        decreases 55 - i,
    {
        let card = Card::at_slot(i);
        let key = trump.total_order_key(card);
        if counts.get(card) >= need && key >= min_key {
            match best {
                None => {
                    best = Some(card);
                    best_key = key;
                },
                Some(_) => {
                    if key < best_key {
                        best = Some(card);
                        best_key = key;
                    }
                },
            }
        }
        proof {
            assert forall|d: Card| card_slot(d) == i implies d == card by {
                lemma_slot_roundtrip(d);
            }
        }
        i += 1;
    }
    proof {
        assert forall|d: Card| card_slot(d) < 55 by {
            lemma_slot_roundtrip(d);
        }
    }
    best
}


/// Consecutive cards of a sequence follow each other in the trump order used
/// for tractors.
pub open spec fn is_chain(t: Trump, cards: Seq<Card>) -> bool {
    forall|j: int| 0 <= j < cards.len() - 1 ==> successors_of(t, #[trigger] cards[j]).contains(cards[j + 1])
}

/// A matching has the shape of a group of adjacent tuples: its cards form a
/// chain and the j-th card is taken `req[j]` times.
pub open spec fn matches_shape(t: Trump, m: Seq<(OrderedCard, usize)>, req: Seq<usize>) -> bool {
    &&& m.len() == req.len()
    &&& forall|j: int| 0 <= j < m.len() ==> (#[trigger] m[j]).1 == req[j] && m[j].0.trump == t
    &&& is_chain(t, m.map_values(|p: (OrderedCard, usize)| p.0.card))
}

/// How many copies of a card a matching takes.
pub open spec fn matching_use(m: Seq<(OrderedCard, usize)>, c: Card) -> nat
    decreases m.len(),
{
    if m.len() == 0 {
        0
    } else {
        (if m[0].0.card == c { m[0].1 as nat } else { 0nat }) + matching_use(m.drop_first(), c)
    }
}

/// How many copies of a card a sequence of matchings takes.
pub open spec fn matchings_use(ms: Seq<Vec<(OrderedCard, usize)>>, c: Card) -> nat
    decreases ms.len(),
{
    if ms.len() == 0 {
        0
    } else {
        matching_use(ms[0]@, c) + matchings_use(ms.drop_first(), c)
    }
}

/// A chain that starts at `start`, continues through cards of which enough
/// copies are counted, and has one card for each of `req[j..]`.
pub open spec fn chain_candidate(counts: CardCounts, t: Trump, start: Card, req: Seq<usize>, j: int, ch: Seq<Card>) -> bool {
    &&& ch.len() == req.len() - j
    &&& ch[0] == start
    &&& is_chain(t, ch)
    &&& forall|x: int| 1 <= x < ch.len() ==> counts.count(#[trigger] ch[x]) >= req[j + x]
}

/// Whether a list of chains holds the chain.
pub open spec fn chain_listed(out: Seq<Vec<Card>>, ch: Seq<Card>) -> bool {
    exists|k: int| 0 <= k < out.len() && (#[trigger] out[k])@ == ch
}

/// Every chain that starts at `start`, continues through cards of which
/// enough copies are counted, and has one card for each of `req[j..]`.
#[verifier::rlimit(40)]
fn chains_from(counts: &CardCounts, trump: Trump, start: Card, req: &[usize], j: usize) -> (r: Vec<Vec<Card>>)
    requires
        j < req.len(),
    ensures
        forall|k: int| 0 <= k < r.len() ==> chain_candidate(*counts, trump, start, req@, j as int, (#[trigger] r@[k])@),
        forall|ch: Seq<Card>| #[trigger] chain_candidate(*counts, trump, start, req@, j as int, ch) ==> chain_listed(r@, ch),
    decreases req.len() - j,
{
    let mut out: Vec<Vec<Card>> = Vec::new();
    if j + 1 == req.len() {
        let mut single: Vec<Card> = Vec::new();
        single.push(start);
        out.push(single);
        proof {
            assert forall|ch: Seq<Card>| #[trigger] chain_candidate(*counts, trump, start, req@, j as int, ch) implies chain_listed(out@, ch) by {
                assert(out@[0]@ =~= ch);
            }
            assert forall|k: int| 0 <= k < out.len() implies chain_candidate(*counts, trump, start, req@, j as int, (#[trigger] out@[k])@) by {
                assert(out@[0]@ =~= seq![start]);
            }
        }
        return out;
    }
    let next = trump.successor(start);
    let mut i: usize = 0;
    while i < next.len()
        invariant
            i <= next.len(),
            j + 1 < req.len(),
            next@ == successors_of(trump, start),
            forall|k: int| 0 <= k < out.len() ==> chain_candidate(*counts, trump, start, req@, j as int, (#[trigger] out@[k])@),
            forall|ch: Seq<Card>| #[trigger] chain_candidate(*counts, trump, start, req@, j as int, ch)
                && next@.subrange(0, i as int).contains(ch[1]) ==> chain_listed(out@, ch),
        decreases next.len() - i,
    {
        let s = next[i];
        let ghost out_i = out@;
        if counts.get(s) >= req[j + 1] {
            let tails = chains_from(counts, trump, s, req, j + 1);
            let mut t: usize = 0;
            while t < tails.len()
                invariant
                    t <= tails.len(),
                    j + 1 < req.len(),
                    next@ == successors_of(trump, start),
                    s == next@[i as int],
                    i < next.len(),
                    counts.count(s) >= req@[j + 1],
                    forall|k: int| 0 <= k < tails.len() ==> chain_candidate(*counts, trump, s, req@, j + 1, (#[trigger] tails@[k])@),
                    forall|k: int| 0 <= k < out.len() ==> chain_candidate(*counts, trump, start, req@, j as int, (#[trigger] out@[k])@),
                    forall|k: int| 0 <= k < out_i.len() ==> out@[k] == out_i[k],
                    out_i.len() <= out.len(),
                    forall|k: int| 0 <= k < t ==> chain_listed(out@, seq![start] + (#[trigger] tails@[k])@),
                decreases tails.len() - t,
            {
                let tail = &tails[t];
                let mut chain: Vec<Card> = Vec::new();
                chain.push(start);
                let mut q: usize = 0;
                while q < tail.len()
                    invariant
                        q <= tail.len(),
                        chain@ == seq![start] + tail@.subrange(0, q as int),
                    decreases tail.len() - q,
                {
                    chain.push(tail[q]);
                    q += 1;
                    assert(chain@ =~= seq![start] + tail@.subrange(0, q as int));
                }
                proof {
                    assert(tail@.subrange(0, tail.len() as int) =~= tail@);
                    let ch = chain@;
                    assert(ch == seq![start] + tail@);
                    assert(chain_candidate(*counts, trump, s, req@, j + 1, tail@));
                    assert forall|x: int| 0 <= x < ch.len() - 1 implies successors_of(trump, #[trigger] ch[x]).contains(ch[x + 1]) by {
                        if x == 0 {
                            assert(ch[1] == tail@[0]);
                            assert(next@[i as int] == s);
                        } else {
                            assert(ch[x] == tail@[x - 1] && ch[x + 1] == tail@[x]);
                        }
                    }
                    assert forall|x: int| 1 <= x < ch.len() implies counts.count(#[trigger] ch[x]) >= req@[j + x] by {
                        assert(ch[x] == tail@[x - 1]);
                        if x >= 2 {
                            assert(counts.count(tail@[x - 1]) >= req@[j + 1 + (x - 1)]);
                        }
                    }
                }
                let ghost out_t = out@;
                let ghost cv = chain@;
                out.push(chain);
                proof {
                    assert(out@[out_t.len() as int]@ == cv);
                    assert forall|k: int| 0 <= k < t + 1 implies chain_listed(out@, seq![start] + (#[trigger] tails@[k])@) by {
                        if k < t {
                            let w = choose|w: int| 0 <= w < out_t.len() && (#[trigger] out_t[w])@ == seq![start] + tails@[k]@;
                            assert(out@[w] == out_t[w]);
                        } else {
                            assert(cv == seq![start] + tails@[k]@);
                        }
                    }
                }
                t += 1;
            }
            proof {
                assert forall|ch: Seq<Card>| #[trigger] chain_candidate(*counts, trump, start, req@, j as int, ch)
                    && next@.subrange(0, i + 1).contains(ch[1]) implies chain_listed(out@, ch) by {
                    if next@.subrange(0, i as int).contains(ch[1]) {
                        let w = choose|w: int| 0 <= w < out_i.len() && (#[trigger] out_i[w])@ == ch;
                        assert(out@[w] == out_i[w]);
                    } else {
                        let y = choose|y: int| 0 <= y < i + 1 && #[trigger] next@.subrange(0, i + 1)[y] == ch[1];
                        if y < i {
                            assert(next@.subrange(0, i as int)[y] == ch[1]);
                        }
                        assert(ch[1] == s);
                        let tl = ch.drop_first();
                        assert(is_chain(trump, tl)) by {
                            assert forall|x: int| 0 <= x < tl.len() - 1 implies successors_of(trump, #[trigger] tl[x]).contains(tl[x + 1]) by {
                                assert(tl[x] == ch[x + 1] && tl[x + 1] == ch[x + 2]);
                                assert(successors_of(trump, ch[x + 1]).contains(ch[x + 2]));
                            }
                        }
                        assert forall|x: int| 1 <= x < tl.len() implies counts.count(#[trigger] tl[x]) >= req@[j + 1 + x] by {
                            assert(tl[x] == ch[x + 1]);
                        }
                        assert(chain_candidate(*counts, trump, s, req@, j + 1, tl));
                        let w = choose|w: int| 0 <= w < tails@.len() && (#[trigger] tails@[w])@ == tl;
                        assert(ch =~= seq![start] + tails@[w]@);
                    }
                }
            }
        } else {
            proof {
                assert forall|ch: Seq<Card>| #[trigger] chain_candidate(*counts, trump, start, req@, j as int, ch)
                    && next@.subrange(0, i + 1).contains(ch[1]) implies chain_listed(out@, ch) by {
                    let y = choose|y: int| 0 <= y < i + 1 && #[trigger] next@.subrange(0, i + 1)[y] == ch[1];
                    if y < i {
                        assert(next@.subrange(0, i as int)[y] == ch[1]);
                    } else {
                        assert(ch[1] == s);
                        assert(counts.count(ch[1]) >= req@[j + 1]);
                    }
                }
            }
        }
        i += 1;
    }
    proof {
        assert forall|ch: Seq<Card>| #[trigger] chain_candidate(*counts, trump, start, req@, j as int, ch) implies chain_listed(out@, ch) by {
            assert(successors_of(trump, ch[0]).contains(ch[1]));
            assert(next@.subrange(0, next@.len() as int) =~= next@);
        }
    }
    out
}


/// All order keys are small.
pub proof fn lemma_key_bound(t: Trump, c: Card)
    ensures
        0 <= total_key(t, c) < 0x8000000,
{
    assert(0 <= crate::types::suit_ordinal_of(t, c) <= 5);
    assert(0 <= crate::types::strength_in_suit(t, c) <= 100);
    assert(0 <= effective_key(t, c) <= 740);
    assert(0 <= total_key(t, c) <= 740 * 0x20000 + 0x20000) by (nonlinear_arith)
        requires
            0 <= effective_key(t, c) <= 740,
            0 <= crate::types::card_code(c) < 0x20000,
            total_key(t, c) == effective_key(t, c) * 0x20000 + crate::types::card_code(c),
    ;
}

/// The copies of each card that a collection counts.
pub open spec fn avail_of(counts: CardCounts) -> spec_fn(Card) -> int {
    |c: Card| counts.count(c) as int
}

/// The copies of each card left once a group has taken its cards.
pub open spec fn after_group(avail: spec_fn(Card) -> int, m: Seq<(OrderedCard, usize)>) -> spec_fn(Card) -> int {
    |c: Card| avail(c) - matching_use(m, c)
}

/// Whether a matching can take its cards for one group of adjacent tuples out
/// of the available copies: it has the group's shape, takes no more copies
/// of a card than are available, and, when `protect` is set, takes every
/// available copy of each of its cards.
pub open spec fn group_fits(avail: spec_fn(Card) -> int, t: Trump, m: Seq<(OrderedCard, usize)>, req: Seq<usize>, protect: bool) -> bool {
    &&& matches_shape(t, m, req)
    &&& forall|c: Card| matching_use(m, c) <= avail(c)
    &&& protect ==> forall|j: int| 0 <= j < m.len() ==> avail((#[trigger] m[j]).0.card) <= m[j].1
}

/// Whether a matching for the group `req` fits and leaves enough cards for
/// the groups `rest`.
pub open spec fn solves_first(avail: spec_fn(Card) -> int, t: Trump, req: Seq<usize>, rest: Seq<Seq<usize>>, protect: bool, m: Seq<(OrderedCard, usize)>) -> bool {
    &&& group_fits(avail, t, m, req, protect)
    &&& format_solvable(after_group(avail, m), t, rest, protect)
}

/// Whether the available cards can be matched against the groups of
/// adjacent tuples `reqs`, one group after another.
pub open spec fn format_solvable(avail: spec_fn(Card) -> int, t: Trump, reqs: Seq<Seq<usize>>, protect: bool) -> bool
    decreases reqs.len(),
{
    if reqs.len() == 0 {
        true
    } else if reqs[0].len() == 0 {
        format_solvable(avail, t, reqs.drop_first(), protect)
    } else {
        exists|m: Seq<(OrderedCard, usize)>| #[trigger] group_fits(avail, t, m, reqs[0], protect)
            && format_solvable(after_group(avail, m), t, reqs.drop_first(), protect)
    }
}

proof fn lemma_solvable_unfold(avail: spec_fn(Card) -> int, t: Trump, reqs: Seq<Seq<usize>>, protect: bool)
    requires
        reqs.len() > 0,
        reqs[0].len() > 0,
    ensures
        format_solvable(avail, t, reqs, protect) == exists|m: Seq<(OrderedCard, usize)>| #[trigger] solves_first(avail, t, reqs[0], reqs.drop_first(), protect, m),
{
    if format_solvable(avail, t, reqs, protect) {
        let m = choose|m: Seq<(OrderedCard, usize)>| #[trigger] group_fits(avail, t, m, reqs[0], protect)
            && format_solvable(after_group(avail, m), t, reqs.drop_first(), protect);
        assert(solves_first(avail, t, reqs[0], reqs.drop_first(), protect, m));
    }
    if exists|m: Seq<(OrderedCard, usize)>| #[trigger] solves_first(avail, t, reqs[0], reqs.drop_first(), protect, m) {
        let m = choose|m: Seq<(OrderedCard, usize)>| #[trigger] solves_first(avail, t, reqs[0], reqs.drop_first(), protect, m);
        assert(group_fits(avail, t, m, reqs[0], protect));
    }
}

/// A card of a matching is taken at least as many times as that entry says.
pub proof fn lemma_matching_use_at(m: Seq<(OrderedCard, usize)>, x: int)
    requires
        0 <= x < m.len(),
    ensures
        matching_use(m, m[x].0.card) >= m[x].1,
    decreases m.len(),
{
    if x > 0 {
        lemma_matching_use_at(m.drop_first(), x - 1);
        assert(m.drop_first()[x - 1] == m[x]);
    }
}

/// Searches for cards that match the groups of adjacent tuples `reqs[idx..]`,
/// one group after another, trying the weakest starting cards first. When
/// `protect` is set, a group may not take only part of the copies of a card.
/// Returns whether a match was found and, if so, the cards matched for each
/// group, in order. A match is found whenever one exists.
pub fn attempt_format_match(
    counts: &CardCounts,
    trump: Trump,
    reqs: &[Vec<usize>],
    idx: usize,
    protect: bool,
) -> (r: (bool, Vec<MatchingCards>))
    requires
        idx <= reqs.len(),
    ensures
        r.0 == format_solvable(avail_of(*counts), trump, seq_views(reqs@).subrange(idx as int, reqs@.len() as int), protect),
        r.0 ==> r.1.len() == reqs.len() - idx,
        r.0 ==> forall|i: int| 0 <= i < r.1.len() ==> matches_shape(trump, (#[trigger] r.1@[i])@, reqs@[idx + i]@),
        r.0 ==> forall|c: Card| matchings_use(r.1@, c) <= counts.count(c),
        !r.0 ==> r.1.len() == 0,
    decreases reqs.len() - idx, 0nat,
{
    let ghost avail = avail_of(*counts);
    let ghost rs = seq_views(reqs@).subrange(idx as int, reqs@.len() as int);
    if idx >= reqs.len() {
        assert(rs.len() == 0);
        return (true, Vec::new());
    }
    let ghost rest_reqs = seq_views(reqs@).subrange(idx + 1, reqs@.len() as int);
    proof {
        assert(rs.drop_first() =~= rest_reqs);
        assert(rs[0] == reqs@[idx as int]@);
    }
    let req = &reqs[idx];
    if req.len() == 0 {
        let (found, mut rest) = attempt_format_match(counts, trump, reqs, idx + 1, protect);
        if found {
            let empty: MatchingCards = Vec::new();
            let ghost before = rest@;
            rest.insert(0, empty);
            proof {
                assert(rest@.drop_first() =~= before);
                assert forall|i: int| 0 <= i < rest.len() implies matches_shape(trump, (#[trigger] rest@[i])@, reqs@[idx + i]@) by {
                    if i == 0 {
                        assert(rest@[0]@ =~= Seq::<(OrderedCard, usize)>::empty());
                        assert(rest@[0]@.map_values(|p: (OrderedCard, usize)| p.0.card) =~= Seq::<Card>::empty());
                    } else {
                        assert(rest@[i] == before[i - 1]);
                    }
                }
                assert forall|c: Card| matchings_use(rest@, c) <= counts.count(c) by {
                    assert(matching_use(rest@[0]@, c) == 0);
                }
            }
            return (true, rest);
        }
        return (false, Vec::new());
    }
    let mut min_key: u64 = 0;
    proof {
        assert forall|m: Seq<(OrderedCard, usize)>| #[trigger] solves_first(avail, trump, req@, rest_reqs, protect, m)
            implies total_key(trump, m[0].0.card) >= min_key by {
            lemma_key_bound(trump, m[0].0.card);
        }
    }
    loop
        invariant
            idx < reqs.len(),
            req == &reqs@[idx as int],
            req.len() > 0,
            min_key <= 0x8000000,
            avail == avail_of(*counts),
            rs == seq_views(reqs@).subrange(idx as int, reqs@.len() as int),
            rest_reqs == seq_views(reqs@).subrange(idx + 1, reqs@.len() as int),
            rs.len() > 0,
            rs[0] == req@,
            rs.drop_first() == rest_reqs,
            forall|m: Seq<(OrderedCard, usize)>| #[trigger] solves_first(avail, trump, req@, rest_reqs, protect, m)
                ==> total_key(trump, m[0].0.card) >= min_key,
        decreases 0x8000000 - min_key,
    {
        let start = match weakest_from(counts, trump, min_key, req[0]) {
            None => {
                proof {
                    assert forall|m: Seq<(OrderedCard, usize)>| !(#[trigger] solves_first(avail, trump, req@, rest_reqs, protect, m)) by {
                        if solves_first(avail, trump, req@, rest_reqs, protect, m) {
                            lemma_matching_use_at(m, 0);
                            assert(matching_use(m, m[0].0.card) <= avail(m[0].0.card));
                            assert(is_candidate(*counts, trump, min_key as int, req@[0] as nat, m[0].0.card));
                        }
                    }
                    assert(rs[0] == req@);
                    lemma_solvable_unfold(avail, trump, rs, protect);
                }
                return (false, Vec::new());
            },
            Some(s) => s,
        };
        let chains = chains_from(counts, trump, start, req.as_slice(), 0);
        let mut k: usize = 0;
        while k < chains.len()
            invariant
                k <= chains.len(),
                idx < reqs.len(),
                req == &reqs@[idx as int],
                req.len() > 0,
                counts.count(start) >= req@[0],
                avail == avail_of(*counts),
                rs == seq_views(reqs@).subrange(idx as int, reqs@.len() as int),
                rest_reqs == seq_views(reqs@).subrange(idx + 1, reqs@.len() as int),
                rs.len() > 0,
                rs[0] == req@,
                rs.drop_first() == rest_reqs,
                forall|q: int| 0 <= q < chains.len() ==> chain_candidate(*counts, trump, start, req@, 0, (#[trigger] chains@[q])@),
                forall|m: Seq<(OrderedCard, usize)>, q: int| 0 <= q < k && #[trigger] solves_first(avail, trump, req@, rest_reqs, protect, m)
                    ==> (#[trigger] chains@[q])@ != m.map_values(|p: (OrderedCard, usize)| p.0.card),
            decreases chains.len() - k,
        {
            let chain = &chains[k];
            let mut matching: MatchingCards = Vec::new();
            let mut sub: CardCounts = *counts;
            let mut ok = true;
            let mut x: usize = 0;
            while x < chain.len()
                invariant
                    x <= chain.len(),
                    chain.len() == req.len(),
                    matching.len() == x,
                    forall|y: int| 0 <= y < x ==> (#[trigger] matching@[y]).1 == req@[y] && matching@[y].0.trump == trump
                        && matching@[y].0.card == chain@[y],
                    ok ==> forall|c: Card| sub.count(c) + matching_use(matching@, c) == counts.count(c),
                    ok ==> forall|y: int| 0 <= y < x ==> (protect ==> counts.count(#[trigger] chain@[y]) <= req@[y]),
                    !ok ==> (exists|c: Card| #[trigger] matching_use(matching@, c) > counts.count(c))
                        || (protect && exists|y: int| 0 <= y < x && counts.count(#[trigger] chain@[y]) > req@[y]),
                decreases chain.len() - x,
            {
                let card = chain[x];
                let n = req[x];
                let ok0 = ok;
                if protect && counts.get(card) > n {
                    ok = false;
                }
                let ghost before = matching@;
                let ghost sub0 = sub;
                matching.push((OrderedCard { card, trump }, n));
                if ok && sub.get(card) >= n {
                    sub.remove(card, n);
                } else {
                    ok = false;
                }
                proof {
                    lemma_matching_use_push(before, (OrderedCard { card, trump }, n));
                    if !ok {
                        if !ok0 {
                            if exists|c: Card| #[trigger] matching_use(before, c) > counts.count(c) {
                                let c = choose|c: Card| #[trigger] matching_use(before, c) > counts.count(c);
                                assert(matching_use(matching@, c) > counts.count(c));
                            }
                        } else if protect && counts.count(card) > n {
                            assert(counts.count(chain@[x as int]) > req@[x as int]);
                        } else {
                            assert(sub0.count(card) < n);
                            assert(matching_use(matching@, card) > counts.count(card));
                        }
                    }
                }
                x += 1;
            }
            let ghost mv = matching@;
            proof {
                assert(mv.map_values(|p: (OrderedCard, usize)| p.0.card) =~= chain@);
                assert forall|m: Seq<(OrderedCard, usize)>| #[trigger] solves_first(avail, trump, req@, rest_reqs, protect, m)
                    && chain@ == m.map_values(|p: (OrderedCard, usize)| p.0.card) implies m == mv && ok by {
                    assert forall|y: int| 0 <= y < m.len() implies m[y] == mv[y] by {
                        assert(m.map_values(|p: (OrderedCard, usize)| p.0.card)[y] == chain@[y]);
                    }
                    assert(m =~= mv);
                    if !ok {
                        if protect && exists|y: int| 0 <= y < chain.len() && counts.count(#[trigger] chain@[y]) > req@[y] {
                            let y = choose|y: int| 0 <= y < chain.len() && counts.count(#[trigger] chain@[y]) > req@[y];
                            assert(m[y].0.card == chain@[y]);
                        }
                    }
                }
            }
            if ok {
                let (found, mut rest) = attempt_format_match(&sub, trump, reqs, idx + 1, protect);
                proof {
                    assert(avail_of(sub) =~= after_group(avail, mv));
                }
                if found {
                    proof {
                        let mc = mv.map_values(|p: (OrderedCard, usize)| p.0.card);
                        assert(mc =~= chain@);
                        assert(matches_shape(trump, mv, req@));
                        if protect {
                            assert forall|j: int| 0 <= j < mv.len() implies avail((#[trigger] mv[j]).0.card) <= mv[j].1 by {
                                assert(counts.count(chain@[j]) <= req@[j]);
                                assert(mv[j].0.card == chain@[j]);
                            }
                        }
                        assert(solves_first(avail, trump, req@, rest_reqs, protect, mv));
                        assert(rs[0] == req@);
                        assert(solves_first(avail, trump, rs[0], rs.drop_first(), protect, mv));
                        assert(format_solvable(avail, trump, rs, protect));
                    }
                    let ghost before = rest@;
                    rest.insert(0, matching);
                    proof {
                        assert(rest@.drop_first() =~= before);
                        assert forall|i: int| 0 <= i < rest.len() implies matches_shape(trump, (#[trigger] rest@[i])@, reqs@[idx + i]@) by {
                            if i > 0 {
                                assert(rest@[i] == before[i - 1]);
                            }
                        }
                        assert forall|c: Card| matchings_use(rest@, c) <= counts.count(c) by {
                            assert(matchings_use(before, c) <= sub.count(c));
                        }
                    }
                    return (true, rest);
                }
            }
            proof {
                assert forall|m: Seq<(OrderedCard, usize)>, q: int| 0 <= q < k + 1 && #[trigger] solves_first(avail, trump, req@, rest_reqs, protect, m)
                    implies (#[trigger] chains@[q])@ != m.map_values(|p: (OrderedCard, usize)| p.0.card) by {
                    if q == k && chains@[q]@ == m.map_values(|p: (OrderedCard, usize)| p.0.card) {
                        assert(m == mv && ok);
                    }
                }
            }
            k += 1;
        }
        proof {
            lemma_key_bound(trump, start);
            assert forall|m: Seq<(OrderedCard, usize)>| #[trigger] solves_first(avail, trump, req@, rest_reqs, protect, m)
                implies total_key(trump, m[0].0.card) >= total_key(trump, start) + 1 by {
                let c0 = m[0].0.card;
                lemma_matching_use_at(m, 0);
                assert(matching_use(m, c0) <= avail(c0));
                assert(is_candidate(*counts, trump, min_key as int, req@[0] as nat, c0));
                lemma_total_key_injective(trump, c0, start);
                if total_key(trump, c0) == total_key(trump, start) {
                    let ch = m.map_values(|p: (OrderedCard, usize)| p.0.card);
                    assert forall|x: int| 1 <= x < ch.len() implies counts.count(#[trigger] ch[x]) >= req@[0 + x] by {
                        lemma_matching_use_at(m, x);
                        assert(matching_use(m, m[x].0.card) <= avail(m[x].0.card));
                    }
                    assert(chain_candidate(*counts, trump, start, req@, 0, ch));
                    let q = choose|q: int| 0 <= q < chains@.len() && (#[trigger] chains@[q])@ == ch;
                    assert(chains@[q]@ != ch);
                }
            }
        }
        min_key = trump.total_order_key(start) + 1;
    }
}

proof fn lemma_matching_use_push(m: Seq<(OrderedCard, usize)>, p: (OrderedCard, usize))
    ensures
        forall|c: Card| #[trigger] matching_use(m.push(p), c) == matching_use(m, c) + (if p.0.card == c { p.1 as nat } else { 0nat }),
    decreases m.len(),
{
    if m.len() == 0 {
        assert(m.push(p).drop_first() =~= Seq::<(OrderedCard, usize)>::empty());
        assert forall|c: Card| #[trigger] matching_use(m.push(p), c) == matching_use(m, c) + (if p.0.card == c { p.1 as nat } else { 0nat }) by {
            assert(matching_use(m.push(p).drop_first(), c) == 0);
        }
    } else {
        let mp = m.push(p);
        assert(mp.drop_first() =~= m.drop_first().push(p));
        assert(mp[0] == m[0]);
        lemma_matching_use_push(m.drop_first(), p);
        assert forall|c: Card| #[trigger] matching_use(m.push(p), c) == matching_use(m, c) + (if p.0.card == c { p.1 as nat } else { 0nat }) by {
            assert(matching_use(mp, c) == (if m[0].0.card == c { m[0].1 as nat } else { 0nat }) + matching_use(mp.drop_first(), c));
            assert(matching_use(mp.drop_first(), c) == matching_use(m.drop_first().push(p), c));
        }
    }
}


/// The sum of a sequence of sizes.
pub open spec fn seq_sum(s: Seq<usize>) -> int
    decreases s.len(),
{
    if s.len() == 0 {
        0
    } else {
        seq_sum(s.drop_last()) + s.last()
    }
}

/// The number of cards in a sequence of groups of adjacent tuples.
pub open spec fn total_size(adj: Seq<Vec<usize>>) -> int
    decreases adj.len(),
{
    if adj.len() == 0 {
        0
    } else {
        total_size(adj.drop_last()) + seq_sum(adj.last()@)
    }
}

/// A non-increasing sequence of positive parts, each at most `max`.
pub open spec fn is_partition(p: Seq<usize>, max: int) -> bool {
    &&& forall|i: int| 0 <= i < p.len() ==> 1 <= #[trigger] p[i] <= max
    &&& forall|i: int, j: int| 0 <= i < j < p.len() ==> #[trigger] p[i] >= #[trigger] p[j]
}

proof fn lemma_seq_sum_prepend(x: usize, s: Seq<usize>)
    ensures
        seq_sum(seq![x] + s) == x + seq_sum(s),
    decreases s.len(),
{
    let xs = seq![x] + s;
    if s.len() == 0 {
        assert(xs.drop_last() =~= Seq::<usize>::empty());
        assert(xs.last() == x);
        assert(seq_sum(xs.drop_last()) == 0);
        assert(seq_sum(s) == 0);
    } else {
        assert(xs.drop_last() =~= seq![x] + s.drop_last());
        assert(xs.last() == s.last());
        lemma_seq_sum_prepend(x, s.drop_last());
        assert(seq_sum(xs) == seq_sum(xs.drop_last()) + xs.last());
        assert(seq_sum(s) == seq_sum(s.drop_last()) + s.last());
    }
}

/// The views of a list of vectors.
pub open spec fn seq_views(vs: Seq<Vec<usize>>) -> Seq<Seq<usize>> {
    vs.map_values(|v: Vec<usize>| v@)
}

/// Every way to write `n` as a non-increasing sum of positive parts of at
/// most `max`, in lexicographically decreasing order: largest first parts
/// first, and among equal first parts, by the rest.
pub open spec fn parts_from(n: nat, max: nat) -> Seq<Seq<usize>>
    decreases n, max,
{
    if n == 0 {
        seq![Seq::<usize>::empty()]
    } else if max == 0 {
        Seq::empty()
    } else if max > n {
        parts_from(n, n)
    } else {
        parts_from((n - max) as nat, max).map_values(|p: Seq<usize>| seq![max as usize] + p) + parts_from(n, (max - 1) as nat)
    }
}

/// All ways to write `n` as a non-increasing sum of parts of at most `max`,
/// largest first parts first (lexicographically decreasing).
fn partitions(n: usize, max: usize) -> (r: Vec<Vec<usize>>)
    ensures
        seq_views(r@) == parts_from(n as nat, max as nat),
        forall|k: int| 0 <= k < r.len() ==> seq_sum((#[trigger] r@[k])@) == n && is_partition(r@[k]@, max as int),
        forall|p: Seq<usize>| #[trigger] is_partition(p, max as int) && seq_sum(p) == n ==> listed(r@, p),
    decreases n, max,
{
    let mut out: Vec<Vec<usize>> = Vec::new();
    if n == 0 {
        out.push(Vec::new());
        proof {
            assert forall|p: Seq<usize>| #[trigger] is_partition(p, max as int) && seq_sum(p) == n implies listed(out@, p) by {
                if p.len() > 0 {
                    lemma_partition_sum_first(p, max as int);
                }
                assert(out@[0]@ =~= p);
            }
            assert(seq_views(out@) =~= parts_from(n as nat, max as nat));
        }
        return out;
    }
    let mut first = if max < n { max } else { n };
    proof {
        assert(seq_views(out@) + parts_from(n as nat, first as nat) =~= parts_from(n as nat, max as nat));
        assert forall|p: Seq<usize>| #[trigger] is_partition(p, max as int) && seq_sum(p) == n && p.len() == 0 implies false by {
            assert(seq_sum(p) == 0);
        }
        assert forall|p: Seq<usize>| #[trigger] is_partition(p, max as int) && seq_sum(p) == n && p.len() > 0 implies p[0] <= first by {
            lemma_partition_sum_first(p, max as int);
        }
    }
    while first >= 1
        invariant_except_break
            seq_views(out@) + parts_from(n as nat, first as nat) == parts_from(n as nat, max as nat),
        invariant
            first <= n,
            first <= max,
            n > 0,
            forall|k: int| 0 <= k < out.len() ==> seq_sum((#[trigger] out@[k])@) == n && is_partition(out@[k]@, max as int),
            forall|p: Seq<usize>| #[trigger] is_partition(p, max as int) && seq_sum(p) == n && p.len() > 0 && p[0] > first ==> listed(out@, p),
            forall|p: Seq<usize>| #[trigger] is_partition(p, max as int) && seq_sum(p) == n && p.len() > 0 ==> p[0] <= if max < n { max } else { n },
        ensures
            forall|k: int| 0 <= k < out.len() ==> seq_sum((#[trigger] out@[k])@) == n && is_partition(out@[k]@, max as int),
            forall|p: Seq<usize>| #[trigger] is_partition(p, max as int) && seq_sum(p) == n ==> listed(out@, p),
            seq_views(out@) == parts_from(n as nat, max as nat),
        decreases first,
    {
        let rests = partitions(n - first, first);
        let ghost out0 = seq_views(out@);
        let ghost block = seq_views(rests@).map_values(|p: Seq<usize>| seq![first] + p);
        proof {
            assert(parts_from(n as nat, first as nat) == block + parts_from(n as nat, (first - 1) as nat));
        }
        let mut t: usize = 0;
        while t < rests.len()
            invariant
                t <= rests.len(),
                1 <= first <= n,
                first <= max,
                forall|k: int| 0 <= k < rests.len() ==> seq_sum((#[trigger] rests@[k])@) == n - first && is_partition(rests@[k]@, first as int),
                forall|k: int| 0 <= k < out.len() ==> seq_sum((#[trigger] out@[k])@) == n && is_partition(out@[k]@, max as int),
                forall|p: Seq<usize>| #[trigger] is_partition(p, max as int) && seq_sum(p) == n && p.len() > 0 && p[0] > first ==> listed(out@, p),
                forall|k2: int| 0 <= k2 < t ==> listed(out@, seq![first] + (#[trigger] rests@[k2])@),
                seq_views(out@) == out0 + block.take(t as int),
                block.len() == rests.len(),
                block == seq_views(rests@).map_values(|p: Seq<usize>| seq![first] + p),
            decreases rests.len() - t,
        {
            let rest = &rests[t];
            let mut p: Vec<usize> = Vec::new();
            p.push(first);
            let mut q: usize = 0;
            while q < rest.len()
                invariant
                    q <= rest.len(),
                    p@ == seq![first] + rest@.subrange(0, q as int),
                decreases rest.len() - q,
            {
                p.push(rest[q]);
                q += 1;
                assert(p@ =~= seq![first] + rest@.subrange(0, q as int));
            }
            proof {
                assert(rest@.subrange(0, rest.len() as int) =~= rest@);
                lemma_seq_sum_prepend(first, rest@);
                assert forall|i: int, j: int| 0 <= i < j < p.len() implies #[trigger] p@[i] >= #[trigger] p@[j] by {
                    if i > 0 {
                        assert(p@[i] == rest@[i - 1] && p@[j] == rest@[j - 1]);
                    } else {
                        assert(p@[j] == rest@[j - 1]);
                    }
                }
                assert forall|i: int| 0 <= i < p.len() implies 1 <= #[trigger] p@[i] <= max by {
                    if i > 0 {
                        assert(p@[i] == rest@[i - 1]);
                    }
                }
            }
            let ghost before = out@;
            let ghost pv = p@;
            out.push(p);
            proof {
                lemma_listed_push(before, out@);
                assert(out@[before.len() as int]@ == pv);
                assert(listed(out@, pv));
                assert(block[t as int] == pv);
                assert(seq_views(out@) =~= seq_views(before).push(pv));
                assert(block.take(t + 1) =~= block.take(t as int).push(pv));
            }
            t += 1;
        }
        proof {
            assert(block.take(block.len() as int) =~= block);
            assert(seq_views(out@) + parts_from(n as nat, (first - 1) as nat) =~= parts_from(n as nat, max as nat));
            assert forall|p: Seq<usize>| #[trigger] is_partition(p, max as int) && seq_sum(p) == n && p.len() > 0 && p[0] >= first implies listed(out@, p) by {
                if p[0] == first {
                    let tail = p.drop_first();
                    assert(p =~= seq![p[0]] + tail);
                    lemma_seq_sum_prepend(p[0], tail);
                    assert(is_partition(tail, first as int)) by {
                        assert forall|i: int| 0 <= i < tail.len() implies 1 <= #[trigger] tail[i] <= first by {
                            assert(tail[i] == p[i + 1]);
                            assert(p[0] >= p[i + 1]);
                        }
                        assert forall|i: int, j: int| 0 <= i < j < tail.len() implies #[trigger] tail[i] >= #[trigger] tail[j] by {
                            assert(tail[i] == p[i + 1] && tail[j] == p[j + 1]);
                        }
                    }
                    assert(listed(rests@, tail));
                    let k2 = choose|k2: int| 0 <= k2 < rests@.len() && rests@[k2]@ == tail;
                    assert(listed(out@, seq![first] + rests@[k2]@));
                }
            }
        }
        if first == 1 {
            proof {
                assert forall|p: Seq<usize>| #[trigger] is_partition(p, max as int) && seq_sum(p) == n implies listed(out@, p) by {
                    if p.len() == 0 {
                        assert(seq_sum(p) == 0);
                    } else {
                        assert(1 <= p[0]);
                    }
                }
                assert(parts_from(n as nat, 0) =~= Seq::<Seq<usize>>::empty());
                assert(seq_views(out@) =~= parts_from(n as nat, max as nat));
            }
            break;
        }
        first -= 1;
    }
    out
}

/// Whether a list holds the sequence.
pub open spec fn listed(out: Seq<Vec<usize>>, p: Seq<usize>) -> bool {
    exists|k: int| 0 <= k < out.len() && (#[trigger] out[k])@ == p
}

proof fn lemma_listed_push(before: Seq<Vec<usize>>, after: Seq<Vec<usize>>)
    requires
        after.len() == before.len() + 1,
        forall|k: int| 0 <= k < before.len() ==> after[k] == before[k],
    ensures
        forall|p: Seq<usize>| #[trigger] listed(before, p) ==> listed(after, p),
{
    assert forall|p: Seq<usize>| #[trigger] listed(before, p) implies listed(after, p) by {
        let k = choose|k: int| 0 <= k < before.len() && (#[trigger] before[k])@ == p;
        assert(after[k]@ == p);
    }
}

/// A partition's first part is at most its sum.
proof fn lemma_partition_sum_first(p: Seq<usize>, max: int)
    requires
        p.len() > 0,
        is_partition(p, max),
    ensures
        1 <= p[0] <= seq_sum(p),
{
    assert(p =~= seq![p[0]] + p.drop_first());
    lemma_seq_sum_prepend(p[0], p.drop_first());
    lemma_seq_sum_nonneg(p.drop_first());
}

/// Whether the parts can be put into bins of the given capacities, each
/// part in one bin, filling every bin exactly.
pub open spec fn can_fit(parts: Seq<usize>, caps: Seq<usize>) -> bool
    decreases parts.len(),
{
    if parts.len() == 0 {
        forall|i: int| 0 <= i < caps.len() ==> caps[i] == 0
    } else {
        exists|b: int| 0 <= b < caps.len() && #[trigger] caps[b] >= parts[0]
            && can_fit(parts.drop_first(), caps.update(b, (caps[b] - parts[0]) as usize))
    }
}

proof fn lemma_can_fit_step(parts: Seq<usize>, caps: Seq<usize>, b: int)
    requires
        parts.len() > 0,
        0 <= b < caps.len(),
        caps[b] >= parts[0],
        can_fit(parts.drop_first(), caps.update(b, (caps[b] - parts[0]) as usize)),
    ensures
        can_fit(parts, caps),
{
}

proof fn lemma_can_fit_witness(parts: Seq<usize>, caps: Seq<usize>) -> (q: int)
    requires
        parts.len() > 0,
        can_fit(parts, caps),
    ensures
        0 <= q < caps.len(),
        caps[q] >= parts[0],
        can_fit(parts.drop_first(), caps.update(q, (caps[q] - parts[0]) as usize)),
{
    choose|q: int| 0 <= q < caps.len() && #[trigger] caps[q] >= parts[0]
        && can_fit(parts.drop_first(), caps.update(q, (caps[q] - parts[0]) as usize))
}

/// Whether the parts `parts[idx..]` can be put into bins with the remaining
/// capacities `caps`, filling every bin exactly (see `can_fit`). The
/// capacities are as they were afterwards.
fn fits(parts: &[usize], idx: usize, caps: &mut Vec<usize>) -> (r: bool)
    requires
        idx <= parts.len(),
    ensures
        final(caps)@ == old(caps)@,
        r == can_fit(parts@.subrange(idx as int, parts@.len() as int), old(caps)@),
    decreases parts.len() - idx,
{
    if idx == parts.len() {
        let mut i: usize = 0;
        proof {
            assert(parts@.subrange(idx as int, parts@.len() as int).len() == 0);
        }
        while i < caps.len()
            invariant
                i <= caps.len(),
                caps@ == old(caps)@,
                idx == parts.len(),
                forall|k: int| 0 <= k < i ==> caps@[k] == 0,
            decreases caps.len() - i,
        {
            if caps[i] != 0 {
                proof {
                    assert(parts@.subrange(idx as int, parts@.len() as int).len() == 0);
                    assert(old(caps)@[i as int] != 0);
                }
                return false;
            }
            i += 1;
        }
        return true;
    }
    let part = parts[idx];
    let ghost start = caps@;
    let ghost rest = parts@.subrange(idx + 1, parts@.len() as int);
    proof {
        assert(parts@.subrange(idx as int, parts@.len() as int).drop_first() =~= rest);
        assert(parts@.subrange(idx as int, parts@.len() as int)[0] == part);
    }
    let mut b: usize = 0;
    while b < caps.len()
        invariant
            b <= caps.len(),
            caps@ == start,
            start == old(caps)@,
            idx < parts.len(),
            part == parts@[idx as int],
            rest == parts@.subrange(idx + 1, parts@.len() as int),
            parts@.subrange(idx as int, parts@.len() as int).drop_first() == rest,
            parts@.subrange(idx as int, parts@.len() as int)[0] == part,
            parts@.subrange(idx as int, parts@.len() as int).len() > 0,
            forall|q: int| 0 <= q < b ==> !(start[q] >= part && #[trigger] can_fit(rest, start.update(q, (start[q] - part) as usize))),
        decreases caps.len() - b,
    {
        let cap = caps[b];
        if cap >= part {
            caps.set(b, cap - part);
            let ok = fits(parts, idx + 1, caps);
            caps.set(b, cap);
            proof {
                assert(caps@ =~= start);
            }
            if ok {
                proof {
                    let sub = parts@.subrange(idx as int, parts@.len() as int);
                    assert(start[b as int] >= part && can_fit(rest, start.update(b as int, (start[b as int] - part) as usize)));
                    assert(sub.drop_first() == rest && sub[0] == part);
                    lemma_can_fit_step(sub, start, b as int);
                }
                return true;
            }
        }
        b += 1;
    }
    proof {
        let sub = parts@.subrange(idx as int, parts@.len() as int);
        if can_fit(sub, start) {
            let q = lemma_can_fit_witness(sub, start);
            assert(!(start[q] >= part && can_fit(rest, start.update(q, (start[q] - part) as usize))));
        }
    }
    false
}

/// The sizes of all tuples of a format, group after group.
pub open spec fn flat_sizes(adj: Seq<Seq<usize>>) -> Seq<usize>
    decreases adj.len(),
{
    if adj.len() == 0 {
        Seq::empty()
    } else {
        flat_sizes(adj.drop_last()) + adj.last()
    }
}

/// Whether every group of a format is a single tuple.
pub open spec fn all_single_tuples(adj: Seq<Seq<usize>>) -> bool {
    forall|i: int| 0 <= i < adj.len() ==> (#[trigger] adj[i]).len() == 1
}

/// The tuple sizes of a level made of single tuples.
pub open spec fn level_parts(level: Seq<Vec<usize>>) -> Seq<usize> {
    level.map_values(|v: Vec<usize>| v@[0])
}

/// Whether single tuples of the sizes `p` are a weaker way to play the
/// format: they take all of its cards, largest first, each tuple of the
/// format splits into some of them, and they are not the format itself.
pub open spec fn is_weakening(adj: Seq<Seq<usize>>, p: Seq<usize>) -> bool {
    &&& is_partition(p, seq_sum(flat_sizes(adj)))
    &&& seq_sum(p) == seq_sum(flat_sizes(adj))
    &&& can_fit(p, flat_sizes(adj))
    &&& !(all_single_tuples(adj) && p.to_multiset() == flat_sizes(adj).to_multiset())
}

/// The test of `is_weakening` for a format.
pub open spec fn weakens(adj: Seq<Seq<usize>>) -> spec_fn(Seq<usize>) -> bool {
    |p: Seq<usize>| is_weakening(adj, p)
}

/// The weaker ways to play a format, from the strongest to the weakest
/// (lexicographically decreasing).
pub open spec fn weakenings(adj: Seq<Seq<usize>>) -> Seq<Seq<usize>> {
    parts_from(seq_sum(flat_sizes(adj)) as nat, seq_sum(flat_sizes(adj)) as nat).filter(weakens(adj))
}

/// The tuple sizes of each level.
pub open spec fn levels_parts(levels: Seq<Vec<Vec<usize>>>) -> Seq<Seq<usize>> {
    levels.map_values(|l: Vec<Vec<usize>>| level_parts(l@))
}

proof fn lemma_filter_push(s: Seq<Seq<usize>>, x: Seq<usize>, pred: spec_fn(Seq<usize>) -> bool)
    ensures
        s.push(x).filter(pred) == (if pred(x) { s.filter(pred).push(x) } else { s.filter(pred) }),
{
    reveal(Seq::filter);
    assert(s.push(x).drop_last() =~= s);
}

/// Whether one of the levels has the tuple sizes `p`.
pub open spec fn has_level(levels: Seq<Vec<Vec<usize>>>, p: Seq<usize>) -> bool {
    exists|q: int| 0 <= q < levels.len() && level_parts((#[trigger] levels[q])@) == p
}

/// The ways to weaken a trick format when a player cannot follow it: every
/// split of its tuples into smaller single tuples, from the strongest (largest
/// tuples first) to the weakest (all single cards). Adjacency is not kept.
pub fn subsequent_decomposition_ordering(adj_reqs: &[AdjacentTupleSizes], include_new_adjacency: bool) -> (r: Vec<Vec<AdjacentTupleSizes>>)
    requires
        total_size(adj_reqs@) <= usize::MAX,
    ensures
        forall|k: int| 0 <= k < r.len() ==> {
            let level = (#[trigger] r@[k])@;
            &&& forall|i: int| 0 <= i < level.len() ==> (#[trigger] level[i])@.len() == 1 && level[i]@[0] >= 1
            &&& is_weakening(seq_views(adj_reqs@), level_parts(level))
        },
        forall|p: Seq<usize>| #[trigger] is_weakening(seq_views(adj_reqs@), p) ==> has_level(r@, p),
        levels_parts(r@) == weakenings(seq_views(adj_reqs@)),
{
    let mut flat: Vec<usize> = Vec::new();
    let mut total: usize = 0;
    let mut all_single = true;
    let mut i: usize = 0;
    while i < adj_reqs.len()
        invariant
            i <= adj_reqs.len(),
            total_size(adj_reqs@) <= usize::MAX,
            total == total_size(adj_reqs@.subrange(0, i as int)),
            flat@ == flat_sizes(seq_views(adj_reqs@.subrange(0, i as int))),
            total == seq_sum(flat@),
            all_single == all_single_tuples(seq_views(adj_reqs@.subrange(0, i as int))),
        decreases adj_reqs.len() - i,
    {
        let tuples = &adj_reqs[i];
        let ghost prefix = adj_reqs@.subrange(0, i + 1);
        proof {
            assert(prefix.drop_last() =~= adj_reqs@.subrange(0, i as int));
            assert(prefix.last() == tuples);
            assert(seq_views(prefix).drop_last() =~= seq_views(adj_reqs@.subrange(0, i as int)));
            assert(seq_views(prefix).last() == tuples@);
        }
        if tuples.len() != 1 {
            all_single = false;
        }
        proof {
            lemma_total_size_prefix(adj_reqs@, i as int + 1);
            assert(all_single == all_single_tuples(seq_views(prefix))) by {
                if all_single {
                    assert forall|x: int| 0 <= x < prefix.len() implies (#[trigger] seq_views(prefix)[x]).len() == 1 by {
                        if x < i {
                            assert(prefix[x] == adj_reqs@.subrange(0, i as int)[x]);
                            assert(seq_views(adj_reqs@.subrange(0, i as int))[x].len() == 1);
                        }
                    }
                } else if tuples.len() == 1 {
                    let x = choose|x: int| 0 <= x < i && (#[trigger] seq_views(adj_reqs@.subrange(0, i as int))[x]).len() != 1;
                    assert(prefix[x] == adj_reqs@.subrange(0, i as int)[x]);
                    assert(seq_views(prefix)[x].len() != 1);
                } else {
                    assert(prefix[i as int] == tuples);
                    assert(seq_views(prefix)[i as int].len() != 1);
                }
            }
        }
        let ghost flat0 = flat@;
        let mut j: usize = 0;
        while j < tuples.len()
            invariant
                j <= tuples.len(),
                i < adj_reqs.len(),
                tuples == &adj_reqs@[i as int],
                total_size(adj_reqs@.subrange(0, i as int)) + seq_sum(tuples@) <= usize::MAX,
                total == total_size(adj_reqs@.subrange(0, i as int)) + seq_sum(tuples@.subrange(0, j as int)),
                flat@ == flat0 + tuples@.subrange(0, j as int),
                total == seq_sum(flat@),
            decreases tuples.len() - j,
        {
            proof {
                assert(tuples@.subrange(0, j + 1).drop_last() =~= tuples@.subrange(0, j as int));
                lemma_seq_sum_prefix(tuples@, j as int + 1);
            }
            let ghost fl = flat@;
            flat.push(tuples[j]);
            assert(flat@.drop_last() =~= fl);
            total = total + tuples[j];
            j += 1;
            assert(flat@ =~= flat0 + tuples@.subrange(0, j as int));
        }
        assert(tuples@.subrange(0, tuples.len() as int) =~= tuples@);
        assert(adj_reqs@.subrange(0, i + 1).last() == tuples);
        assert(flat@ == flat_sizes(seq_views(prefix)));
        i += 1;
    }
    assert(adj_reqs@.subrange(0, adj_reqs.len() as int) =~= adj_reqs@);
    let candidates = partitions(total, total);
    let mut out: Vec<Vec<AdjacentTupleSizes>> = Vec::new();
    proof {
        reveal(Seq::filter);
        assert(levels_parts(out@) =~= seq_views(candidates@).take(0).filter(weakens(seq_views(adj_reqs@))));
    }
    let mut k: usize = 0;
    while k < candidates.len()
        invariant
            k <= candidates.len(),
            total == total_size(adj_reqs@),
            flat@ == flat_sizes(seq_views(adj_reqs@)),
            total == seq_sum(flat@),
            all_single == all_single_tuples(seq_views(adj_reqs@)),
            forall|q: int| 0 <= q < candidates.len() ==> seq_sum((#[trigger] candidates@[q])@) == total
                && is_partition(candidates@[q]@, total as int),
            forall|q: int| 0 <= q < out.len() ==> {
                let level = (#[trigger] out@[q])@;
                &&& forall|i: int| 0 <= i < level.len() ==> (#[trigger] level[i])@.len() == 1 && level[i]@[0] >= 1
                &&& is_weakening(seq_views(adj_reqs@), level_parts(level))
            },
            forall|q: int| 0 <= q < k && is_weakening(seq_views(adj_reqs@), (#[trigger] candidates@[q])@) ==> has_level(out@, candidates@[q]@),
            levels_parts(out@) == seq_views(candidates@).take(k as int).filter(weakens(seq_views(adj_reqs@))),
            seq_views(candidates@) == parts_from(total as nat, total as nat),
        decreases candidates.len() - k,
    {
        let parts = &candidates[k];
        let mut caps = flat.clone();
        let refines = fits(parts.as_slice(), 0, &mut caps);
        let same_as_format = all_single && same_sorted(parts, &flat);
        proof {
            assert(parts@.subrange(0, parts@.len() as int) =~= parts@);
            assert(refines && !same_as_format <==> is_weakening(seq_views(adj_reqs@), parts@));
        }
        let ghost out0 = out@;
        proof {
            assert(seq_views(candidates@).take(k + 1) =~= seq_views(candidates@).take(k as int).push(parts@));
            lemma_filter_push(seq_views(candidates@).take(k as int), parts@, weakens(seq_views(adj_reqs@)));
        }
        if refines && !same_as_format {
            let mut level: Vec<AdjacentTupleSizes> = Vec::new();
            let mut q: usize = 0;
            while q < parts.len()
                invariant
                    q <= parts.len(),
                    is_partition(parts@, total as int),
                    level.len() == q,
                    forall|i: int| 0 <= i < level.len() ==> (#[trigger] level@[i])@ == seq![parts@[i]],
                decreases parts.len() - q,
            {
                let mut tuple: Vec<usize> = Vec::new();
                tuple.push(parts[q]);
                level.push(tuple);
                q += 1;
            }
            proof {
                assert(level_parts(level@) =~= parts@);
            }
            out.push(level);
            proof {
                assert(out@[out0.len() as int] == level);
                assert(has_level(out@, parts@));
                assert(levels_parts(out@) =~= levels_parts(out0).push(parts@));
            }
        }
        proof {
            assert forall|q: int| 0 <= q < k + 1 && is_weakening(seq_views(adj_reqs@), (#[trigger] candidates@[q])@) implies has_level(out@, candidates@[q]@) by {
                if q < k {
                    let w = choose|w: int| 0 <= w < out0.len() && level_parts((#[trigger] out0[w])@) == candidates@[q]@;
                    assert(out@[w] == out0[w]);
                }
            }
        }
        k += 1;
    }
    proof {
        assert(seq_views(candidates@).take(candidates.len() as int) =~= seq_views(candidates@));
        assert forall|p: Seq<usize>| #[trigger] is_weakening(seq_views(adj_reqs@), p) implies has_level(out@, p) by {
            assert(listed(candidates@, p));
            let q = choose|q: int| 0 <= q < candidates@.len() && (#[trigger] candidates@[q])@ == p;
        }
    }
    out
}

/// Whether a non-increasing sequence equals another sequence once sorted:
/// whether the two hold the same numbers, as many times each.
fn same_sorted(sorted: &Vec<usize>, other: &Vec<usize>) -> (r: bool)
    ensures
        r == (sorted@.to_multiset() == other@.to_multiset()),
{
    broadcast use vstd::seq_lib::group_to_multiset_ensures, vstd::multiset::group_multiset_axioms;
    if sorted.len() != other.len() {
        proof {
            sorted@.to_multiset_ensures();
            other@.to_multiset_ensures();
        }
        return false;
    }
    let mut rest = vstd::slice::slice_to_vec(other.as_slice());
    let mut i: usize = 0;
    proof {
        assert(sorted@.subrange(0, 0) =~= Seq::<usize>::empty());
        assert(rest@.to_multiset().add(sorted@.subrange(0, 0).to_multiset()) =~= other@.to_multiset());
    }
    while i < sorted.len()
        invariant
            i <= sorted.len() == other.len(),
            rest@.len() + i == other@.len(),
            rest@.to_multiset().add(sorted@.subrange(0, i as int).to_multiset()) == other@.to_multiset(),
        decreases sorted.len() - i,
    {
        let x = sorted[i];
        let mut found = false;
        let mut j: usize = 0;
        while j < rest.len()
            invariant_except_break
                !found,
            invariant
                j <= rest.len(),
                i < sorted.len(),
                x == sorted@[i as int],
                forall|k: int| 0 <= k < j ==> rest@[k] != x,
            ensures
                found ==> j < rest.len() && rest@[j as int] == x,
                !found ==> forall|k: int| 0 <= k < rest@.len() ==> rest@[k] != x,
            decreases rest.len() - j,
        {
            if rest[j] == x {
                found = true;
                break;
            }
            j += 1;
        }
        if !found {
            proof {
                assert(!rest@.contains(x));
                rest@.to_multiset_ensures();
                let pre = sorted@.subrange(0, i as int);
                let post = sorted@.subrange(i as int, sorted@.len() as int);
                assert(sorted@ =~= pre + post);
                vstd::seq_lib::lemma_multiset_commutative(pre, post);
                assert(post[0] == x);
                assert(post.contains(x));
                post.to_multiset_ensures();
                assert(sorted@.to_multiset().count(x) == pre.to_multiset().count(x) + post.to_multiset().count(x));
                assert(other@.to_multiset().count(x) == pre.to_multiset().count(x));
            }
            return false;
        }
        let ghost before = rest@;
        rest.remove(j);
        proof {
            before.to_multiset_ensures();
            let pre = sorted@.subrange(0, i as int);
            assert(sorted@.subrange(0, i + 1) =~= pre.push(x));
            pre.to_multiset_ensures();
            assert(rest@.to_multiset() =~= before.to_multiset().remove(x));
            assert(rest@.to_multiset().add(sorted@.subrange(0, i + 1).to_multiset()) =~= before.to_multiset().add(pre.to_multiset()));
        }
        i += 1;
    }
    proof {
        assert(sorted@.subrange(0, sorted@.len() as int) =~= sorted@);
        rest@.to_multiset_ensures();
        assert(rest@.to_multiset() =~= vstd::multiset::Multiset::<usize>::empty());
        assert(sorted@.to_multiset() =~= other@.to_multiset());
    }
    true
}

pub proof fn lemma_seq_sum_prefix(s: Seq<usize>, n: int)
    requires
        0 < n <= s.len(),
    ensures
        seq_sum(s.subrange(0, n)) == seq_sum(s.subrange(0, n - 1)) + s[n - 1],
        seq_sum(s.subrange(0, n)) <= seq_sum(s),
    decreases s.len() - n,
{
    assert(s.subrange(0, n).drop_last() =~= s.subrange(0, n - 1));
    if n < s.len() {
        lemma_seq_sum_prefix(s, n + 1);
    } else {
        assert(s.subrange(0, n) =~= s);
    }
}

proof fn lemma_total_size_prefix(s: Seq<Vec<usize>>, n: int)
    requires
        0 < n <= s.len(),
    ensures
        total_size(s.subrange(0, n)) == total_size(s.subrange(0, n - 1)) + seq_sum(s[n - 1]@),
        total_size(s.subrange(0, n)) <= total_size(s),
    decreases s.len() - n,
{
    assert(s.subrange(0, n).drop_last() =~= s.subrange(0, n - 1));
    if n < s.len() {
        lemma_total_size_prefix(s, n + 1);
        lemma_seq_sum_nonneg(s[n]@);
    } else {
        assert(s.subrange(0, n) =~= s);
    }
}

proof fn lemma_seq_sum_nonneg(s: Seq<usize>)
    ensures
        seq_sum(s) >= 0,
    decreases s.len(),
{
    if s.len() > 0 {
        lemma_seq_sum_nonneg(s.drop_last());
    }
}

} // verus!
