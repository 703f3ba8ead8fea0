//! Bidding for the trump: which bids a player may make, making and taking
//! back bids, and finding the first and the winning bid.

use vstd::prelude::*;

use crate::hands::Hands;
use crate::player::Player;
use crate::types::{card_number, card_suit, suit_bid_rank, Card, PlayerID, Rank};

verus! {

#[derive(Debug, Copy, Clone, PartialEq, Eq, Structural)]
pub enum BidPolicy {
    JokerOrHigherSuit,
    JokerOrGreaterLength,
    GreaterLength,
}

impl Default for BidPolicy {
    fn default() -> (r: Self)
        ensures
            r == BidPolicy::JokerOrGreaterLength,
    {
        BidPolicy::JokerOrGreaterLength
    }
}

#[derive(Debug, Copy, Clone, PartialEq, Eq, Structural)]
pub enum JokerBidPolicy {
    BothTwoOrMore,
    BothNumDecks,
    LJNumDecksHJNumDecksLessOne,
}

impl Default for JokerBidPolicy {
    fn default() -> (r: Self)
        ensures
            r == JokerBidPolicy::BothTwoOrMore,
    {
        JokerBidPolicy::BothTwoOrMore
    }
}

#[derive(Debug, Copy, Clone, PartialEq, Eq, Structural)]
pub enum BidReinforcementPolicy {
    /// A bid can be reinforced when it is the winning bid.
    ReinforceWhileWinning,
    /// A bid can be reinforced when it is the winning bid, or overturned with a greater bid.
    OverturnOrReinforceWhileWinning,
    /// A bid can be reinforced if it is equivalent to the winning bid after reinforcement.
    ReinforceWhileEquivalent,
}

impl Default for BidReinforcementPolicy {
    fn default() -> (r: Self)
        ensures
            r == BidReinforcementPolicy::ReinforceWhileWinning,
    {
        BidReinforcementPolicy::ReinforceWhileWinning
    }
}

#[derive(Debug, Copy, Clone, PartialEq, Eq, Structural)]
pub enum BidTakebackPolicy {
    AllowBidTakeback,
    NoBidTakeback,
}

impl Default for BidTakebackPolicy {
    fn default() -> (r: Self)
        ensures
            r == BidTakebackPolicy::AllowBidTakeback,
    {
        BidTakebackPolicy::AllowBidTakeback
    }
}

/// Why a bid request was refused.
#[derive(Debug, Copy, Clone, PartialEq, Eq, Structural)]
pub enum BidError {
    /// Bids may not be taken back under the current policy.
    TakebackNotAllowed,
    /// The most recent bid is not the player's own bid of this epoch.
    CannotTakeBack,
    /// Nobody has bid yet.
    NoBids,
}

/// A bid: a player shows `count` copies of `card`.
#[derive(Debug, Copy, Clone, Hash, PartialEq, Eq, Structural)]
pub struct Bid {
    pub id: PlayerID,
    pub card: Card,
    pub count: usize,
    pub epoch: usize,
}

/// The level of the first player with the given id.
pub open spec fn rank_of(players: Seq<Player>, id: PlayerID) -> Option<Rank>
    decreases players.len(),
{
    if players.len() == 0 {
        None
    } else if players[0].id == id {
        Some(players[0].level)
    } else {
        rank_of(players.drop_first(), id)
    }
}

/// The most recent bid made by a player.
pub open spec fn last_bid_by(bids: Seq<Bid>, id: PlayerID) -> Option<Bid>
    decreases bids.len(),
{
    if bids.len() == 0 {
        None
    } else if bids.last().id == id {
        Some(bids.last())
    } else {
        last_bid_by(bids.drop_last(), id)
    }
}

pub open spec fn last_of(bids: Seq<Bid>) -> Option<Bid> {
    if bids.len() == 0 {
        None
    } else {
        Some(bids.last())
    }
}

/// Whether a card may be shown for a bid at the given level: jokers always,
/// other cards only when their number is the level.
pub open spec fn card_eligible(card: Card, level: Option<Rank>) -> bool {
    card == Card::SmallJoker || card == Card::BigJoker || (match card_number(card) {
        Some(n) => Some(Rank::Number(n)),
        None => None,
    }) == level
}

/// Whether the joker policy permits showing `count` copies of a card.
pub open spec fn joker_count_allowed(card: Card, count: int, policy: JokerBidPolicy, num_decks: int) -> bool {
    match (card, policy) {
        (Card::SmallJoker, JokerBidPolicy::BothTwoOrMore) => count > 1,
        (Card::BigJoker, JokerBidPolicy::BothTwoOrMore) => count > 1,
        (Card::SmallJoker, _) => count >= num_decks,
        (Card::BigJoker, JokerBidPolicy::LJNumDecksHJNumDecksLessOne) => count >= num_decks - 1,
        (Card::BigJoker, JokerBidPolicy::BothNumDecks) => count >= num_decks,
        _ => true,
    }
}

/// Whether a card's suit outranks another's for bids of equal length; a
/// suited card outranks a card without suit.
pub open spec fn suit_outranks(new_card: Card, old_card: Card) -> bool {
    match (card_suit(new_card), card_suit(old_card)) {
        (Some(a), Some(b)) => suit_bid_rank(a) > suit_bid_rank(b),
        (Some(_), None) => true,
        _ => false,
    }
}

/// Whether a new bid beats the last bid made.
pub open spec fn beats(new_bid: Bid, last: Option<Bid>, policy: BidPolicy) -> bool {
    match last {
        None => true,
        Some(existing) => {
            if new_bid.count > existing.count {
                true
            } else if new_bid.count == existing.count && policy != BidPolicy::GreaterLength {
                match (new_bid.card, existing.card) {
                    (Card::BigJoker, Card::BigJoker) => false,
                    (Card::BigJoker, _) => true,
                    (Card::SmallJoker, Card::BigJoker) => false,
                    (Card::SmallJoker, Card::SmallJoker) => false,
                    (Card::SmallJoker, _) => true,
                    _ => policy == BidPolicy::JokerOrHigherSuit && suit_outranks(new_bid.card, existing.card)
                        && new_bid.count > 1,
                }
            } else {
                false
            }
        },
    }
}

/// The bids a player could make from the hand alone, ignoring reinforcement.
pub open spec fn hand_bids(
    id: PlayerID,
    bids: Seq<Bid>,
    hands: Hands,
    level: Option<Rank>,
    epoch: usize,
    bid_policy: BidPolicy,
    joker_bid_policy: JokerBidPolicy,
    num_decks: usize,
) -> Set<Bid> {
    Set::new(
        |b: Bid|
            {
                &&& b.id == id
                &&& b.epoch == epoch
                &&& card_eligible(b.card, level)
                &&& 1 <= b.count <= hands.count(id, b.card)
                &&& joker_count_allowed(b.card, b.count as int, joker_bid_policy, num_decks as int)
                &&& beats(b, last_of(bids), bid_policy)
            },
    )
}

/// Reinforcements of a bid: the same card, shown more times, up to the
/// number of copies held.
pub open spec fn reinforcements(id: PlayerID, recent: Bid, available: nat, epoch: usize) -> Set<Bid> {
    Set::new(
        |b: Bid|
            b.id == id && b.epoch == epoch && b.card == recent.card && recent.count < b.count <= available,
    )
}

/// All bids a player may make.
pub open spec fn valid_bid_set(
    id: PlayerID,
    bids: Seq<Bid>,
    hands: Hands,
    players: Seq<Player>,
    landlord: Option<PlayerID>,
    epoch: usize,
    bid_policy: BidPolicy,
    bid_reinforcement_policy: BidReinforcementPolicy,
    joker_bid_policy: JokerBidPolicy,
    num_decks: usize,
) -> Set<Bid> {
    let level = rank_of(players, match landlord {
        Some(l) => l,
        None => id,
    });
    let from_hand = hand_bids(id, bids, hands, level, epoch, bid_policy, joker_bid_policy, num_decks);
    match last_bid_by(bids, id) {
        Some(recent) => {
            let available = hands.count(id, recent.card);
            if bid_reinforcement_policy != BidReinforcementPolicy::OverturnOrReinforceWhileWinning
                && Some(recent) == last_of(bids) {
                reinforcements(id, recent, available, epoch)
            } else if !hands.has_player(id) {
                Set::empty()
            } else if bid_reinforcement_policy == BidReinforcementPolicy::ReinforceWhileEquivalent {
                let last = bids.last();
                let equivalent = Bid { card: recent.card, count: last.count, id, epoch };
                if last.count <= available && (equivalent == last || !(last.card == Card::SmallJoker
                    || last.card == Card::BigJoker)) {
                    from_hand.insert(equivalent)
                } else {
                    from_hand
                }
            } else {
                from_hand
            }
        },
        None => if hands.has_player(id) {
            from_hand
        } else {
            Set::empty()
        },
    }
}


/// Membership in a sequence after a push.
pub proof fn lemma_push_contains<T>(s: Seq<T>, x: T, b: T)
    ensures
        s.push(x).contains(b) <==> (s.contains(b) || b == x),
{
    if s.push(x).contains(b) {
        let k = choose|k: int| 0 <= k < s.len() + 1 && s.push(x)[k] == b;
        if k < s.len() {
            assert(s[k] == b);
        }
    }
    if s.contains(b) {
        let k = choose|k: int| 0 <= k < s.len() && s[k] == b;
        assert(s.push(x)[k] == b);
    }
    if b == x {
        assert(s.push(x)[s.len() as int] == b);
    }
}

pub(crate) fn find_rank(players: &[Player], id: PlayerID) -> (r: Option<Rank>)
    ensures
        r == rank_of(players@, id),
{
    let mut i: usize = 0;
    assert(players@.subrange(0, players.len() as int) =~= players@);
    while i < players.len()
        invariant
            i <= players.len(),
            rank_of(players@, id) == rank_of(players@.subrange(i as int, players.len() as int), id),
        decreases players.len() - i,
    {
        let ghost rest = players@.subrange(i as int, players.len() as int);
        assert(rest.drop_first() =~= players@.subrange(i + 1, players.len() as int));
        if players[i].id == id {
            return Some(players[i].level);
        }
        i += 1;
    }
    assert(players@.subrange(i as int, players.len() as int) =~= Seq::<Player>::empty());
    None
}

fn find_last_bid_by(bids: &[Bid], id: PlayerID) -> (r: Option<Bid>)
    ensures
        r == last_bid_by(bids@, id),
{
    let mut i: usize = bids.len();
    assert(bids@.subrange(0, bids.len() as int) =~= bids@);
    while i > 0
        invariant
            i <= bids.len(),
            last_bid_by(bids@, id) == last_bid_by(bids@.subrange(0, i as int), id),
        decreases i,
    {
        let ghost pre = bids@.subrange(0, i as int);
        assert(pre.drop_last() =~= bids@.subrange(0, i - 1));
        if bids[i - 1].id == id {
            return Some(bids[i - 1]);
        }
        i -= 1;
    }
    None
}

fn last_bid(bids: &[Bid]) -> (r: Option<Bid>)
    ensures
        r == last_of(bids@),
{
    if bids.len() == 0 {
        None
    } else {
        Some(bids[bids.len() - 1])
    }
}

fn card_eligible_exec(card: Card, level: Option<Rank>) -> (r: bool)
    ensures
        r == card_eligible(card, level),
{
    if card.is_joker() {
        return true;
    }
    let as_rank = match card.number() {
        Some(n) => Some(Rank::Number(n)),
        None => None,
    };
    as_rank == level
}

fn joker_count_allowed_exec(card: Card, count: usize, policy: JokerBidPolicy, num_decks: usize) -> (r: bool)
    requires
        policy == JokerBidPolicy::LJNumDecksHJNumDecksLessOne && card == Card::BigJoker ==> num_decks >= 1,
    ensures
        r == joker_count_allowed(card, count as int, policy, num_decks as int),
{
    match (card, policy) {
        (Card::SmallJoker, JokerBidPolicy::BothTwoOrMore) | (Card::BigJoker, JokerBidPolicy::BothTwoOrMore) => count > 1,
        (Card::SmallJoker, _) => count >= num_decks,
        (Card::BigJoker, JokerBidPolicy::LJNumDecksHJNumDecksLessOne) => count >= num_decks - 1,
        (Card::BigJoker, JokerBidPolicy::BothNumDecks) => count >= num_decks,
        _ => true,
    }
}

fn suit_outranks_exec(new_card: Card, old_card: Card) -> (r: bool)
    ensures
        r == suit_outranks(new_card, old_card),
{
    match (new_card.suit(), old_card.suit()) {
        (Some(a), Some(b)) => a.bid_rank() > b.bid_rank(),
        (Some(_), None) => true,
        _ => false,
    }
}

fn beats_exec(new_bid: Bid, last: Option<Bid>, policy: BidPolicy) -> (r: bool)
    ensures
        r == beats(new_bid, last, policy),
{
    match last {
        None => true,
        Some(existing) => {
            if new_bid.count > existing.count {
                true
            } else if new_bid.count == existing.count && policy != BidPolicy::GreaterLength {
                match (new_bid.card, existing.card) {
                    (Card::BigJoker, Card::BigJoker) => false,
                    (Card::BigJoker, _) => true,
                    (Card::SmallJoker, Card::BigJoker) => false,
                    (Card::SmallJoker, Card::SmallJoker) => false,
                    (Card::SmallJoker, _) => true,
                    _ => policy == BidPolicy::JokerOrHigherSuit && suit_outranks_exec(new_bid.card, existing.card)
                        && new_bid.count > 1,
                }
            } else {
                false
            }
        },
    }
}

impl Bid {
    /// Every bid the player `id` may make now.
    pub fn valid_bids(
        id: PlayerID,
        bids: &[Bid],
        hands: &Hands,
        players: &[Player],
        landlord: Option<PlayerID>,
        epoch: usize,
        bid_policy: BidPolicy,
        bid_reinforcement_policy: BidReinforcementPolicy,
        joker_bid_policy: JokerBidPolicy,
        num_decks: usize,
    ) -> (r: Result<Vec<Bid>, BidError>)
        requires
            hands.wf(),
            joker_bid_policy == JokerBidPolicy::LJNumDecksHJNumDecksLessOne && hands.count(id, Card::BigJoker) > 0 ==> num_decks >= 1,
        ensures
            r matches Ok(v) && forall|b: Bid| v@.contains(b) <==> valid_bid_set(
                id,
                bids@,
                *hands,
                players@,
                landlord,
                epoch,
                bid_policy,
                bid_reinforcement_policy,
                joker_bid_policy,
                num_decks,
            ).contains(b),
    {
        let most_recent_bid = find_last_bid_by(bids, id);
        let bid_player_id = match landlord {
            Some(l) => l,
            None => id,
        };
        let bid_level = find_rank(players, bid_player_id);
        let last = last_bid(bids);
        let ghost from_hand = hand_bids(id, bids@, *hands, bid_level, epoch, bid_policy, joker_bid_policy, num_decks);

        let valid_bids: Option<Vec<Bid>> = match hands.counts(id) {
            None => None,
            Some(counts) => {
                let mut out: Vec<Bid> = Vec::new();
                let mut i: usize = 0;
                while i < 55
                    invariant
                        i <= 55,
                        hands.has_player(id),
                        joker_bid_policy == JokerBidPolicy::LJNumDecksHJNumDecksLessOne && hands.count(id, Card::BigJoker) > 0 ==> num_decks >= 1,
                        forall|c: Card| counts.count(c) == hands.count(id, c),
                        from_hand == hand_bids(id, bids@, *hands, bid_level, epoch, bid_policy, joker_bid_policy, num_decks),
                        last == last_of(bids@),
                        forall|b: Bid| #![trigger out@.contains(b)] out@.contains(b) <==> (from_hand.contains(b) && crate::types::card_slot(b.card) < i),
                    decreases 55 - i,
                {
                    let card = Card::at_slot(i);
                    let count = counts.get(card);
                    if card_eligible_exec(card, bid_level) {
                        let mut k: usize = 0;
                        while k < count
                            invariant
                                k <= count,
                                count == hands.count(id, card),
                                crate::types::card_slot(card) == i,
                                card_eligible(card, bid_level),
                                hands.has_player(id),
                                joker_bid_policy == JokerBidPolicy::LJNumDecksHJNumDecksLessOne && hands.count(id, Card::BigJoker) > 0 ==> num_decks >= 1,
                                from_hand == hand_bids(id, bids@, *hands, bid_level, epoch, bid_policy, joker_bid_policy, num_decks),
                                last == last_of(bids@),
                                forall|b: Bid| #![trigger out@.contains(b)] out@.contains(b) <==> (from_hand.contains(b) && (crate::types::card_slot(b.card) < i
                                    || (b.card == card && b.count <= k))),
                            decreases count - k,
                        {
                            let new_bid = Bid { id, card, count: k + 1, epoch };
                            let ghost before = out@;
                            let allowed = joker_count_allowed_exec(card, k + 1, joker_bid_policy, num_decks) && beats_exec(new_bid, last, bid_policy);
                            proof {
                                assert(allowed <==> from_hand.contains(new_bid));
                            }
                            if allowed {
                                out.push(new_bid);
                            }
                            proof {
                                assert forall|b: Bid| #![trigger out@.contains(b)] out@.contains(b) <==> (from_hand.contains(b) && (crate::types::card_slot(b.card) < i
                                    || (b.card == card && b.count <= k + 1))) by {
                                    if allowed {
                                        lemma_push_contains(before, new_bid, b);
                                    }
                                    crate::types::lemma_slot_roundtrip(b.card);
                                    crate::types::lemma_slot_roundtrip(card);
                                    if from_hand.contains(b) && b.card == card && b.count == k + 1 {
                                        assert(b == new_bid);
                                    }
                                }
                            }
                            k += 1;
                        }
                        proof {
                            assert forall|b: Bid| #![trigger out@.contains(b)] out@.contains(b) <==> (from_hand.contains(b) && crate::types::card_slot(b.card) < i + 1) by {
                                crate::types::lemma_slot_roundtrip(b.card);
                                crate::types::lemma_slot_roundtrip(card);
                                if from_hand.contains(b) && crate::types::card_slot(b.card) == i {
                                    assert(b.card == card);
                                    assert(b.count <= hands.count(id, card));
                                }
                            }
                        }
                    } else {
                        proof {
                            assert forall|b: Bid| #![trigger out@.contains(b)] out@.contains(b) <==> (from_hand.contains(b) && crate::types::card_slot(b.card) < i + 1) by {
                                crate::types::lemma_slot_roundtrip(b.card);
                                crate::types::lemma_slot_roundtrip(card);
                                if from_hand.contains(b) && crate::types::card_slot(b.card) == i {
                                    assert(b.card == card);
                                }
                            }
                        }
                    }
                    i += 1;
                }
                proof {
                    assert forall|b: Bid| #![trigger out@.contains(b)] out@.contains(b) <==> from_hand.contains(b) by {
                        crate::types::lemma_slot_roundtrip(b.card);
                    }
                }
                Some(out)
            },
        };

        match most_recent_bid {
            Some(recent) => {
                let available = match hands.counts(id) {
                    Some(c) => c.get(recent.card),
                    None => 0,
                };
                let recent_is_last = match last {
                    Some(l) => l == recent,
                    None => false,
                };
                if bid_reinforcement_policy != BidReinforcementPolicy::OverturnOrReinforceWhileWinning && recent_is_last {
                    let mut out: Vec<Bid> = Vec::new();
                    let mut count = recent.count;
                    while count < available
                        invariant
                            recent.count <= count,
                            count <= available || available <= recent.count,
                            available == hands.count(id, recent.card),
                            forall|b: Bid| #![trigger out@.contains(b)] out@.contains(b) <==> (reinforcements(id, recent, available as nat, epoch).contains(b) && b.count <= count),
                        decreases available - count,
                    {
                        count += 1;
                        let b = Bid { card: recent.card, count, id, epoch };
                        let ghost before = out@;
                        out.push(b);
                        proof {
                            assert forall|x: Bid| out@.contains(x) <==> (reinforcements(id, recent, available as nat, epoch).contains(x) && x.count <= count) by {
                                lemma_push_contains(before, b, x);
                            }
                        }
                    }
                    return Ok(out);
                }
                match valid_bids {
                    None => Ok(Vec::new()),
                    Some(mut valid_bids) => {
                        if bid_reinforcement_policy == BidReinforcementPolicy::ReinforceWhileEquivalent {
                            if let Some(last_bid) = last {
                                if last_bid.count <= available {
                                    let new_bid = Bid { card: recent.card, count: last_bid.count, id, epoch };
                                    if new_bid == last_bid || !last_bid.card.is_joker() {
                                        let ghost before = valid_bids@;
                                        valid_bids.push(new_bid);
                                        proof {
                                            assert forall|x: Bid| valid_bids@.contains(x) <==> from_hand.insert(new_bid).contains(x) by {
                                                lemma_push_contains(before, new_bid, x);
                                            }
                                        }
                                    }
                                }
                            }
                        }
                        Ok(valid_bids)
                    },
                }
            },
            None => match valid_bids {
                None => Ok(Vec::new()),
                Some(v) => Ok(v),
            },
        }
    }
}


/// What taking back a bid gives: refused by the policy, or allowed when the
/// last bid is the player's own, made in this round of bidding.
pub open spec fn take_back_outcome(id: PlayerID, policy: BidTakebackPolicy, bids: Seq<Bid>, epoch: usize) -> Result<(), BidError> {
    if policy == BidTakebackPolicy::NoBidTakeback {
        Err(BidError::TakebackNotAllowed)
    } else if bids.len() > 0 && bids.last().id == id && bids.last().epoch == epoch {
        Ok(())
    } else {
        Err(BidError::CannotTakeBack)
    }
}

impl Bid {
    /// Makes a bid, if it is one of the valid bids and no bid was made
    /// automatically. Returns whether the bid was made.
    pub fn bid(
        id: PlayerID,
        card: Card,
        count: usize,
        bids: &mut Vec<Bid>,
        autobid: Option<Bid>,
        hands: &Hands,
        players: &[Player],
        landlord: Option<PlayerID>,
        bid_policy: BidPolicy,
        bid_reinforcement_policy: BidReinforcementPolicy,
        joker_bid_policy: JokerBidPolicy,
        num_decks: usize,
        epoch: usize,
    ) -> (r: bool)
        requires
            hands.wf(),
            joker_bid_policy == JokerBidPolicy::LJNumDecksHJNumDecksLessOne && hands.count(id, Card::BigJoker) > 0 ==> num_decks >= 1,
        ensures
            r == (autobid is None && valid_bid_set(
                id,
                old(bids)@,
                *hands,
                players@,
                landlord,
                epoch,
                bid_policy,
                bid_reinforcement_policy,
                joker_bid_policy,
                num_decks,
            ).contains(Bid { id, card, count, epoch })),
            final(bids)@ == (if r {
                old(bids)@.push(Bid { id, card, count, epoch })
            } else {
                old(bids)@
            }),
    {
        if autobid.is_some() {
            return false;
        }
        let new_bid = Bid { id, card, count, epoch };
        let valid = match Bid::valid_bids(
            id,
            bids.as_slice(),
            hands,
            players,
            landlord,
            epoch,
            bid_policy,
            bid_reinforcement_policy,
            joker_bid_policy,
            num_decks,
        ) {
            Ok(v) => v,
            Err(_) => {
                return false;
            },
        };
        let ghost allowed = valid_bid_set(
            id,
            old(bids)@,
            *hands,
            players@,
            landlord,
            epoch,
            bid_policy,
            bid_reinforcement_policy,
            joker_bid_policy,
            num_decks,
        );
        let mut i: usize = 0;
        while i < valid.len()
            invariant
                i <= valid.len(),
                bids@ == old(bids)@,
                autobid is None,
                new_bid == (Bid { id, card, count, epoch }),
                allowed == valid_bid_set(
                    id,
                    old(bids)@,
                    *hands,
                    players@,
                    landlord,
                    epoch,
                    bid_policy,
                    bid_reinforcement_policy,
                    joker_bid_policy,
                    num_decks,
                ),
                forall|b: Bid| #![trigger valid@.contains(b)] valid@.contains(b) <==> allowed.contains(b),
                forall|j: int| 0 <= j < i ==> valid@[j] != new_bid,
            decreases valid.len() - i,
        {
            if valid[i] == new_bid {
                assert(valid@.contains(new_bid));
                bids.push(new_bid);
                return true;
            }
            i += 1;
        }
        proof {
            if valid@.contains(new_bid) {
                let j = choose|j: int| 0 <= j < valid.len() && valid@[j] == new_bid;
                assert(valid@[j] != new_bid);
            }
        }
        false
    }

    /// Takes back the most recent bid, if it is the player's own bid of this
    /// epoch and the policy permits it.
    pub fn take_back_bid(
        id: PlayerID,
        bid_takeback_policy: BidTakebackPolicy,
        bids: &mut Vec<Bid>,
        epoch: usize,
    ) -> (r: Result<(), BidError>)
        ensures
            bid_takeback_policy == BidTakebackPolicy::NoBidTakeback ==> r == Err::<(), BidError>(BidError::TakebackNotAllowed),
            bid_takeback_policy != BidTakebackPolicy::NoBidTakeback ==> (r is Ok <==> (old(bids)@.len() > 0
                && old(bids)@.last().id == id && old(bids)@.last().epoch == epoch)),
            r matches Err(e) ==> e == BidError::TakebackNotAllowed || e == BidError::CannotTakeBack,
            final(bids)@ == (if r is Ok {
                old(bids)@.drop_last()
            } else {
                old(bids)@
            }),
            r == take_back_outcome(id, bid_takeback_policy, old(bids)@, epoch),
    {
        if bid_takeback_policy == BidTakebackPolicy::NoBidTakeback {
            return Err(BidError::TakebackNotAllowed);
        }
        let n = bids.len();
        if n > 0 && bids[n - 1].id == id && bids[n - 1].epoch == epoch {
            bids.pop();
            assert(bids@ =~= old(bids)@.drop_last());
            Ok(())
        } else {
            Err(BidError::CannotTakeBack)
        }
    }

    /// The first bid made and the winning bid. A bid made automatically wins,
    /// and counts as the first bid when nobody else has bid.
    pub fn first_and_winner(bids: &[Bid], autobid: Option<Bid>) -> (r: Result<(Bid, Bid), BidError>)
        ensures
            r is Err <==> (bids@.len() == 0 && autobid is None),
            r matches Err(e) ==> e == BidError::NoBids,
            r matches Ok((first, winner)) ==> {
                &&& first == (if bids@.len() > 0 { bids@[0] } else { autobid->0 })
                &&& winner == (match autobid {
                    Some(a) => a,
                    None => bids@.last(),
                })
            },
    {
        if bids.len() == 0 && autobid.is_none() {
            return Err(BidError::NoBids);
        }
        let winning_bid = match autobid {
            Some(a) => a,
            None => bids[bids.len() - 1],
        };
        let first_bid = if bids.len() > 0 {
            bids[0]
        } else {
            match autobid {
                Some(a) => a,
                None => {
                    return Err(BidError::NoBids);
                },
            }
        };
        Ok((first_bid, winning_bid))
    }
}

/// A bid that was just made can be taken back by its player in the same
/// epoch, when the policy allows taking bids back, and that leaves the bids
/// as they were before it.
pub proof fn lemma_take_back_undoes_bid(bids: Seq<Bid>, b: Bid, policy: BidTakebackPolicy)
    requires
        policy != BidTakebackPolicy::NoBidTakeback,
    ensures
        take_back_outcome(b.id, policy, bids.push(b), b.epoch) is Ok,
        bids.push(b).drop_last() == bids,
{
    assert(bids.push(b).drop_last() =~= bids);
}

} // verus!
