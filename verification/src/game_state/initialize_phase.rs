//! Before a game: players join and choose the rules; then the game starts
//! with a shuffled deck.

use rand::seq::SliceRandom;
use rand::RngCore;

use vstd::prelude::*;

use crate::deck::{deck_cards, deck_includes_number, Deck};
use crate::game_state::draw_phase::DrawPhase;
use crate::game_state::GameError;
use crate::message::{same_messages, MessageVariant};
use crate::player::Player;
use crate::settings::{
    first_with_id, id_in, joined_messages, standard_deck, Friend, GameMode, GameModeSettings, GameStartPolicy, PropagatedState, SettingsError,
};
use crate::types::{num_at, num_index, Card, Number, PlayerID, Rank, Suit, ALL_SUITS};

verus! {

#[derive(Debug)]
pub struct InitializePhase {
    propagated: PropagatedState,
}

/// The generator of random numbers that `rand` keeps for each thread.
#[verifier::external_type_specification]
#[verifier::external_body]
pub struct ExThreadRng(rand::rngs::ThreadRng);

/// Calls `rand::thread_rng`, which hands out the generator of the current
/// thread.
#[verifier::external_body]
fn thread_rng() -> (r: rand::rngs::ThreadRng) {
    rand::thread_rng()
}

/// Calls `rand::RngCore::next_u32` on the generator: any number may come
/// back.
#[verifier::external_body]
fn next_u32(rng: &mut rand::rngs::ThreadRng) -> (r: u32) {
    rng.next_u32()
}

/// Calls `rand::seq::SliceRandom::shuffle` on the cards with the generator.
/// The crate only swaps cards within the slice, so the same cards come back;
/// their order is left unsaid.
#[verifier::external_body]
fn shuffle_cards(cards: &mut Vec<Card>, rng: &mut rand::rngs::ThreadRng)
    ensures
        final(cards)@.to_multiset() == old(cards)@.to_multiset(),
{
    cards.as_mut_slice().shuffle(rng);
}

/// The cards of some decks, one deck after the other.
pub open spec fn all_cards(decks: Seq<Deck>) -> Seq<Card>
    decreases decks.len(),
{
    if decks.len() == 0 {
        Seq::empty()
    } else {
        all_cards(decks.drop_last()) + deck_cards(decks.last())
    }
}

/// Whether some deck holds the cards of a number.
pub open spec fn some_deck_has(decks: Seq<Deck>, n: Number) -> bool {
    exists|i: int| 0 <= i < decks.len() && deck_includes_number(#[trigger] decks[i], n)
}

/// Whether a player at this level could bid: a number must be in some deck.
pub open spec fn can_bid_at(decks: Seq<Deck>, level: Rank) -> bool {
    match level {
        Rank::Number(n) => some_deck_has(decks, n),
        Rank::NoTrump => true,
    }
}

/// Whether the decks let the landlord bid, or every player when there is no
/// landlord yet.
pub open spec fn bid_cards_present(decks: Seq<Deck>, level: Option<Rank>, players: Seq<Player>) -> bool {
    match level {
        Some(l) => can_bid_at(decks, l),
        None => forall|i: int| 0 <= i < players.len() ==> can_bid_at(decks, (#[trigger] players[i]).level),
    }
}

/// The mode a game starts in: tractor needs an even number of players;
/// finding friends takes the chosen number of friends when it leaves someone
/// outside the landlord's team, else one friend fewer than half the players.
pub open spec fn starting_mode(settings: GameModeSettings, n: int, m: GameMode) -> bool {
    match (settings, m) {
        (GameModeSettings::Tractor, GameMode::Tractor) => n % 2 == 0,
        (GameModeSettings::FindingFriends { num_friends: setting }, GameMode::FindingFriends { num_friends, friends }) => {
            &&& friends@.len() == 0
            &&& num_friends == match setting {
                Some(k) => if k + 1 < n { k as int } else { n / 2 - 1 },
                None => n / 2 - 1,
            }
        },
        _ => false,
    }
}

/// The lowest minimum number of some decks.
pub open spec fn lowest_min(decks: Seq<Deck>) -> Number
    decreases decks.len(),
{
    if decks.len() <= 1 {
        decks[0].min
    } else {
        let rest = lowest_min(decks.drop_last());
        if num_index(decks.last().min) < num_index(rest) { decks.last().min } else { rest }
    }
}

/// The next higher number, if any.
pub open spec fn next_number(n: Number) -> Option<Number> {
    if n == Number::Ace { None } else { Some(num_at(num_index(n) + 1)) }
}

/// Whether taking a number's cards out would hurt: a player's level, or a
/// number that carries points.
pub open spec fn bad_to_remove(n: Number, players: Seq<Player>) -> bool {
    ||| n == Number::Five
    ||| n == Number::Ten
    ||| n == Number::King
    ||| exists|i: int| 0 <= i < players.len() && (#[trigger] players[i]).level == Rank::Number(n)
}

/// From `n` up, the first number that is not bad to remove; `fallback` if
/// every one is.
pub open spec fn first_removable(n: Number, fallback: Number, players: Seq<Player>) -> Number
    decreases 12 - num_index(n),
{
    if !bad_to_remove(n, players) {
        n
    } else {
        match next_number(n) {
            Some(m) => first_removable(m, fallback, players),
            None => fallback,
        }
    }
}

/// The number whose cards are taken out of the deck to make the kitty size
/// work out: the lowest number in the decks, unless that is the landlord's
/// level (then the next one), and with no landlord, the first number from
/// the lowest up that is neither a level nor a point card.
pub open spec fn removal_number(level: Option<Rank>, min_number: Number, players: Seq<Player>) -> Number {
    match level {
        Some(Rank::Number(l)) => if l == min_number {
            match next_number(min_number) {
                Some(m) => m,
                None => min_number,
            }
        } else {
            min_number
        },
        Some(Rank::NoTrump) => min_number,
        None => first_removable(min_number, min_number, players),
    }
}

/// The suit of the `k`th card taken out: clubs, diamonds, hearts, spades,
/// and around again.
pub open spec fn removal_suit(k: int) -> Suit {
    if k % 4 == 0 {
        Suit::Clubs
    } else if k % 4 == 1 {
        Suit::Diamonds
    } else if k % 4 == 2 {
        Suit::Hearts
    } else {
        Suit::Spades
    }
}

/// The cards taken out, in order: `count` cards of the number.
pub open spec fn removal_plan(number: Number, count: nat) -> Seq<Card> {
    Seq::new(count, |k: int| Card::Suited { suit: removal_suit(k), number })
}

/// The cards without the first copy of `c`.
pub open spec fn remove_first(s: Seq<Card>, c: Card) -> Seq<Card>
    decreases s.len(),
{
    if s.len() == 0 {
        s
    } else if s[0] == c {
        s.drop_first()
    } else {
        seq![s[0]] + remove_first(s.drop_first(), c)
    }
}

/// The cards without the first copy of each card of the plan in turn, or
/// `None` when some card of the plan is no longer there.
pub open spec fn remove_each(s: Seq<Card>, plan: Seq<Card>) -> Option<Seq<Card>>
    decreases plan.len(),
{
    if plan.len() == 0 {
        Some(s)
    } else if s.contains(plan[0]) {
        remove_each(remove_first(s, plan[0]), plan.drop_first())
    } else {
        None
    }
}

/// The kitty size when none is set: what is left over once every player
/// has the same number of cards, the number of players if nothing is, and
/// one more round of cards when that is below five.
pub open spec fn default_kitty(len: int, n: int) -> int {
    let k = if len % n == 0 { n } else { len % n };
    if k < 5 { k + n } else { k }
}

/// How many cards must go so that the deck less the kitty can be shared out
/// evenly.
pub open spec fn removal_count(len: int, size: int, n: int) -> int {
    (len - size) % n
}

/// The kitty size of a game dealt from `len` cards among `n` players.
pub open spec fn kitty_size_for(setting: Option<usize>, len: int, n: int) -> int {
    match setting {
        Some(s) => s as int,
        None => default_kitty(len, n),
    }
}

/// The cards taken out of a deck of `len` cards.
pub open spec fn cards_to_remove(setting: Option<usize>, len: int, n: int, number: Number) -> Seq<Card> {
    match setting {
        Some(s) => removal_plan(number, removal_count(len, s as int, n) as nat),
        None => Seq::empty(),
    }
}

proof fn lemma_first_index_remove(s: Seq<Card>, c: Card, i: int)
    requires
        0 <= i < s.len(),
        s[i] == c,
        forall|j: int| 0 <= j < i ==> s[j] != c,
    ensures
        s.remove(i) == remove_first(s, c),
    decreases i,
{
    if i > 0 {
        lemma_first_index_remove(s.drop_first(), c, i - 1);
        assert(s.remove(i) =~= seq![s[0]] + s.drop_first().remove(i - 1));
    } else {
        assert(s.remove(0) =~= s.drop_first());
    }
}

proof fn lemma_removal_steps(len: int, size: int, n: int, k: int)
    requires
        n > 0,
        0 <= k <= removal_count(len, size, n),
    ensures
        ((len - k) % n == size % n) == (k == removal_count(len, size, n)),
{
    let r = removal_count(len, size, n);
    let q = (len - size) / n;
    vstd::arithmetic::div_mod::lemma_fundamental_div_mod(len - size, n);
    let d = r - k;
    assert(len - k == n * q + (size + d));
    vstd::arithmetic::div_mod::lemma_mod_multiples_vanish(q, size + d, n);
    let qs = size / n;
    let rs = size % n;
    vstd::arithmetic::div_mod::lemma_fundamental_div_mod(size, n);
    assert(size + d == n * qs + (rs + d));
    vstd::arithmetic::div_mod::lemma_mod_multiples_vanish(qs, rs + d, n);
    if rs + d < n {
        vstd::arithmetic::div_mod::lemma_small_mod((rs + d) as nat, n as nat);
    } else {
        vstd::arithmetic::div_mod::lemma_mod_add_multiples_vanish(rs + d - n, n);
        vstd::arithmetic::div_mod::lemma_small_mod((rs + d - n) as nat, n as nat);
    }
}

/// The position of the first copy of a card.
fn find_card(deck: &Vec<Card>, c: Card) -> (r: Option<usize>)
    ensures
        r matches Some(i) ==> i < deck.len() && deck@[i as int] == c && forall|j: int| 0 <= j < i ==> deck@[j] != c,
        r is None ==> !deck@.contains(c),
{
    let mut i: usize = 0;
    while i < deck.len()
        invariant
            i <= deck.len(),
            forall|j: int| 0 <= j < i ==> deck@[j] != c,
        decreases deck.len() - i,
    {
        if deck[i] == c {
            return Some(i);
        }
        i += 1;
    }
    None
}

/// Takes `count` cards of a number out of the deck, the first copy of each
/// in the order of `removal_plan`, and lists them in `removed`. On error,
/// some may have gone already.
fn remove_for_kitty(deck: &mut Vec<Card>, removed: &mut Vec<Card>, number: Number, size: usize, n: usize) -> (r: Result<(), GameError>)
    requires
        n > 0,
        old(removed)@.len() == 0,
    ensures
        ({
            let plan = removal_plan(number, removal_count(old(deck)@.len() as int, size as int, n as int) as nat);
            match remove_each(old(deck)@, plan) {
                Some(rest) => r is Ok && final(deck)@ == rest && final(removed)@ == plan,
                None => r == Err::<(), GameError>(GameError::CardToRemoveMissing),
            }
        }),
{
    let ghost len = deck@.len() as int;
    let ghost total = removal_count(len, size as int, n as int);
    let ghost plan = removal_plan(number, total as nat);
    let suits = ALL_SUITS();
    let mut suit_idx: usize = 3;
    let mut k: usize = 0;
    proof {
        vstd::arithmetic::div_mod::lemma_mod_bound(len - size, n as int);
        assert(plan.subrange(0, total) =~= plan);
    }
    while deck.len() % n != size % n
        invariant
            n > 0,
            suits@ == seq![Suit::Spades, Suit::Hearts, Suit::Diamonds, Suit::Clubs],
            0 <= total < n,
            len == old(deck)@.len(),
            total == removal_count(len, size as int, n as int),
            plan == removal_plan(number, total as nat),
            0 <= k <= total,
            deck@.len() == len - k,
            suit_idx == 3 - (k % 4),
            removed@ == plan.subrange(0, k as int),
            remove_each(old(deck)@, plan) == remove_each(deck@, plan.subrange(k as int, total)),
        decreases deck.len(),
    {
        proof {
            lemma_removal_steps(len, size as int, n as int, k as int);
        }
        let card = Card::Suited { suit: suits[suit_idx], number };
        proof {
            assert(k < total);
            assert(suits@[suit_idx as int] == removal_suit(k as int));
            assert(plan.subrange(k as int, total)[0] == plan[k as int]);
            assert(card == plan[k as int]);
            assert(plan.subrange(k as int, total).drop_first() =~= plan.subrange(k + 1, total));
        }
        suit_idx = if suit_idx == 0 {
            3
        } else {
            suit_idx - 1
        };
        let ghost pre = deck@;
        proof {
            let sub = plan.subrange(k as int, total);
            assert(sub.len() > 0);
            assert(sub[0] == card);
            assert(remove_each(pre, sub) == if pre.contains(card) {
                remove_each(remove_first(pre, card), sub.drop_first())
            } else {
                None::<Seq<Card>>
            });
        }
        match find_card(deck, card) {
            Some(i) => {
                proof {
                    lemma_first_index_remove(deck@, card, i as int);
                    assert(pre.contains(card));
                }
                deck.remove(i);
                removed.push(card);
                k += 1;
                proof {
                    assert(removed@ =~= plan.subrange(0, k as int));
                }
            },
            None => {
                return Err(GameError::CardToRemoveMissing);
            },
        }
    }
    proof {
        lemma_removal_steps(len, size as int, n as int, k as int);
        assert(plan.subrange(k as int, total).len() == 0);
        assert(plan.subrange(0, total) =~= plan);
    }
    Ok(())
}

proof fn lemma_remove_first_multiset(s: Seq<Card>, c: Card)
    requires
        s.contains(c),
    ensures
        remove_first(s, c).to_multiset() == s.to_multiset().remove(c),
        remove_first(s, c).len() == s.len() - 1,
    decreases s.len(),
{
    broadcast use vstd::seq_lib::group_to_multiset_ensures, vstd::multiset::group_multiset_axioms;
    if s[0] == c {
        assert(s =~= seq![c] + s.drop_first());
        assert(s.to_multiset() =~= s.drop_first().to_multiset().insert(c)) by {
            vstd::seq_lib::lemma_multiset_commutative(seq![c], s.drop_first());
        }
        assert(s.to_multiset().remove(c) =~= s.drop_first().to_multiset());
    } else {
        let rest = s.drop_first();
        assert(rest.contains(c)) by {
            let i = choose|i: int| 0 <= i < s.len() && s[i] == c;
            assert(rest[i - 1] == c);
        }
        lemma_remove_first_multiset(rest, c);
        assert(s =~= seq![s[0]] + rest);
        vstd::seq_lib::lemma_multiset_commutative(seq![s[0]], rest);
        vstd::seq_lib::lemma_multiset_commutative(seq![s[0]], remove_first(rest, c));
        assert(remove_first(s, c).to_multiset() =~= s.to_multiset().remove(c));
    }
}

/// Taking the cards of a plan out one by one works exactly when the cards
/// hold every card of the plan, as many times as the plan names it; what is
/// left is the cards less the plan.
pub proof fn lemma_remove_each_multiset(s: Seq<Card>, plan: Seq<Card>)
    ensures
        remove_each(s, plan) is Some <==> plan.to_multiset().subset_of(s.to_multiset()),
        remove_each(s, plan) matches Some(t) ==> t.to_multiset() == s.to_multiset().sub(plan.to_multiset()) && t.len() == s.len() - plan.len(),
    decreases plan.len(),
{
    broadcast use vstd::seq_lib::group_to_multiset_ensures, vstd::multiset::group_multiset_axioms;
    if plan.len() == 0 {
        assert(plan.to_multiset() =~= vstd::multiset::Multiset::empty());
        assert(s.to_multiset().sub(plan.to_multiset()) =~= s.to_multiset());
    } else {
        let c = plan[0];
        let rest = plan.drop_first();
        assert(plan =~= seq![c] + rest);
        vstd::seq_lib::lemma_multiset_commutative(seq![c], rest);
        assert(plan.to_multiset() =~= rest.to_multiset().insert(c));
        if s.contains(c) {
            lemma_remove_first_multiset(s, c);
            let s2 = remove_first(s, c);
            lemma_remove_each_multiset(s2, rest);
            assert(s.to_multiset().count(c) > 0);
            assert(rest.to_multiset().subset_of(s2.to_multiset()) == plan.to_multiset().subset_of(s.to_multiset())) by {
                if rest.to_multiset().subset_of(s2.to_multiset()) {
                    assert forall|x: Card| plan.to_multiset().count(x) <= s.to_multiset().count(x) by {
                        assert(rest.to_multiset().count(x) <= s2.to_multiset().count(x));
                    }
                }
                if plan.to_multiset().subset_of(s.to_multiset()) {
                    assert forall|x: Card| rest.to_multiset().count(x) <= s2.to_multiset().count(x) by {
                        assert(plan.to_multiset().count(x) <= s.to_multiset().count(x));
                    }
                }
            }
            if let Some(t) = remove_each(s, plan) {
                assert(t.to_multiset() =~= s.to_multiset().sub(plan.to_multiset()));
            }
        } else {
            assert(s.to_multiset().count(c) == 0);
            assert(plan.to_multiset().count(c) > 0);
        }
    }
}

impl InitializePhase {
    pub closed spec fn propagated_spec(self) -> PropagatedState {
        self.propagated
    }

    /// A room with no players and default rules.
    pub fn new() -> (r: Self)
        ensures
            r.propagated_spec().players_spec().len() == 0,
            r.propagated_spec().observers_spec().len() == 0,
            r.propagated_spec().landlord_spec() is None,
            r.propagated_spec().next_id() == 0,
    {
        InitializePhase { propagated: PropagatedState::default() }
    }

    pub fn from_propagated(propagated: PropagatedState) -> (r: Self)
        ensures
            r.propagated_spec() == propagated,
    {
        InitializePhase { propagated }
    }

    pub fn propagated(&self) -> (r: &PropagatedState)
        ensures
            *r == self.propagated_spec(),
    {
        &self.propagated
    }

    pub fn propagated_mut(&mut self) -> (r: &mut PropagatedState)
        ensures
            *r == old(self).propagated_spec(),
            final(self).propagated_spec() == *final(r),
    {
        &mut self.propagated
    }
}


/// What stops a game from starting, if anything, before the cards are
/// shuffled: fewer than four players; a start by someone other than the
/// landlord when only the landlord may start; tractor with an odd number of
/// players; no decks.
pub open spec fn start_error(p: PropagatedState, id: PlayerID) -> Option<GameError> {
    let n = p.players_spec().len();
    if n < 4 {
        Some(GameError::NotEnoughPlayers)
    } else if p.game_start_policy_setting() == GameStartPolicy::AllowLandlordOnly && (p.landlord_spec() matches Some(l) && l != id) {
        Some(GameError::OnlyLandlordStarts)
    } else if p.game_mode_spec() == GameModeSettings::Tractor && n % 2 != 0 {
        Some(GameError::OddPlayersForTractor)
    } else if p.num_decks_spec() == 0 {
        Some(GameError::Settings { source: SettingsError::NoDecks })
    } else {
        None
    }
}

/// The decks a game is played with: the number of decks, each a full deck.
pub open spec fn standard_decks(n: int) -> Seq<Deck> {
    Seq::new(n as nat, |i: int| standard_deck())
}

/// The position of the first player with the given id.
pub open spec fn is_first_position(players: Seq<Player>, id: PlayerID, position: int) -> bool {
    &&& 0 <= position < players.len()
    &&& players[position].id == id
    &&& forall|j: int| 0 <= j < position ==> players[j].id != id
}

/// Whether a drawing phase is the one a game starts with, dealt from a
/// shuffle of the decks' cards: the landlord (if a player) leads, the kitty
/// has the set size (or the default one), and the cards named by the plan
/// are taken out first.
pub open spec fn dealt_from(p: PropagatedState, dp: DrawPhase) -> bool {
    let players = p.players_spec();
    let n = players.len() as int;
    let nd = p.num_decks_spec();
    let len = nd * 54;
    let pos = dp.position_spec() as int;
    let level = dp.level_spec();
    let plan = cards_to_remove(p.kitty_size_spec(), len, n, removal_number(level, Number::Two, players));
    let kitty = kitty_size_for(p.kitty_size_spec(), len, n);
    &&& dp.propagated_spec().same_state(p)
    &&& 0 <= pos < n
    &&& p.landlord_spec() matches Some(l) ==> (id_in(players, l) ==> is_first_position(players, l, pos))
    &&& level == (if p.landlord_spec() is Some { Some(players[pos].level) } else { None::<Rank> })
    &&& starting_mode(p.game_mode_spec(), n, dp.game_mode_spec())
    &&& dp.num_decks_spec() == nd
    &&& dp.decks_spec() == standard_decks(nd)
    &&& dp.removed_cards_spec() == plan
    &&& dp.kitty_spec().len() == kitty
    &&& dp.deck_spec().len() + kitty + plan.len() == len
    &&& (dp.deck_spec() + dp.kitty_spec() + plan).to_multiset() == all_cards(standard_decks(nd)).to_multiset()
    &&& dp.bids_spec().len() == 0
    &&& dp.autobid_spec() is None
    &&& dp.hands_spec().wf()
    &&& forall|x: PlayerID| dp.hands_spec().has_player(x) <==> id_in(players, x)
    &&& forall|x: PlayerID, c: Card| dp.hands_spec().count(x, c) == 0
}

/// The kitty fits in what is left of the deck once the cards that must go
/// are taken out.
pub open spec fn kitty_fits(p: PropagatedState) -> bool {
    let n = p.players_spec().len() as int;
    let len = p.num_decks_spec() * 54;
    p.kitty_size_spec() matches Some(s) ==> s + removal_count(len, s as int, n) <= len
}

proof fn lemma_all_cards_len(decks: Seq<Deck>)
    requires
        forall|i: int| 0 <= i < decks.len() ==> decks[i] == standard_deck(),
    ensures
        all_cards(decks).len() == 54 * decks.len(),
    decreases decks.len(),
{
    if decks.len() > 0 {
        lemma_all_cards_len(decks.drop_last());
        crate::deck::lemma_full_deck_cards(decks.last());
    }
}

impl InitializePhase {
    /// Deals from the shuffled cards: takes out the cards the kitty size
    /// needs gone, then splits off the kitty from the end.
    fn deal(
        &self,
        position: usize,
        level: Option<Rank>,
        game_mode: GameMode,
        num_decks: usize,
        decks: Vec<Deck>,
        deck: Vec<Card>,
    ) -> (r: Result<DrawPhase, GameError>)
        requires
            self.propagated.players_spec().len() >= 4,
            decks@.len() >= 1,
            ({
                let n = self.propagated.players_spec().len() as int;
                let len = deck@.len() as int;
                let number = removal_number(level, lowest_min(decks@), self.propagated.players_spec());
                kitty_size_for(self.propagated.kitty_size_spec(), len, n) + cards_to_remove(self.propagated.kitty_size_spec(), len, n, number).len() <= len
            }),
        ensures
            ({
                let p = self.propagated;
                let n = p.players_spec().len() as int;
                let len = deck@.len() as int;
                let number = removal_number(level, lowest_min(decks@), p.players_spec());
                let plan = cards_to_remove(p.kitty_size_spec(), len, n, number);
                let kitty = kitty_size_for(p.kitty_size_spec(), len, n);
                match remove_each(deck@, plan) {
                    None => r == Err::<DrawPhase, GameError>(GameError::CardToRemoveMissing),
                    Some(rest) => r matches Ok(dp) && {
                        &&& dp.propagated_spec().same_state(p)
                        &&& dp.deck_spec() == rest.subrange(0, rest.len() - kitty)
                        &&& dp.kitty_spec() == rest.subrange(rest.len() - kitty, rest.len() as int)
                        &&& dp.removed_cards_spec() == plan
                        &&& dp.position_spec() == position
                        &&& dp.level_spec() == level
                        &&& dp.game_mode_spec() == game_mode
                        &&& dp.num_decks_spec() == num_decks
                        &&& dp.decks_spec() == decks@
                        &&& dp.bids_spec().len() == 0
                        &&& dp.autobid_spec() is None
                        &&& dp.hands_spec().wf()
                        &&& forall|x: PlayerID| dp.hands_spec().has_player(x) <==> id_in(p.players_spec(), x)
                        &&& forall|x: PlayerID, c: Card| dp.hands_spec().count(x, c) == 0
                    },
                }
            }),
    {
        let n = self.propagated.players().len();
        let mut deck = deck;
        let ghost shuffled = deck@;
        let mut removed_cards: Vec<Card> = Vec::new();
        let kitty_size = match self.propagated.kitty_size() {
            Some(size) => {
                if deck.len() % n != size % n {
                    let mut min_number = decks[0].min;
                    let mut i: usize = 1;
                    proof {
                        assert(decks@.subrange(0, 1).drop_last() =~= decks@.subrange(0, 0));
                    }
                    while i < decks.len()
                        invariant
                            1 <= i <= decks.len(),
                            min_number == lowest_min(decks@.subrange(0, i as int)),
                        decreases decks.len() - i,
                    {
                        proof {
                            assert(decks@.subrange(0, i + 1).drop_last() =~= decks@.subrange(0, i as int));
                        }
                        if decks[i].min.index() < min_number.index() {
                            min_number = decks[i].min;
                        }
                        i += 1;
                    }
                    proof {
                        assert(decks@.subrange(0, decks.len() as int) =~= decks@);
                    }
                    let number = self.removal_number(level, min_number);
                    proof {
                        let plan = removal_plan(number, removal_count(deck@.len() as int, size as int, n as int) as nat);
                        lemma_remove_each_multiset(deck@, plan);
                    }
                    match remove_for_kitty(&mut deck, &mut removed_cards, number, size, n) {
                        Ok(()) => {},
                        Err(e) => {
                            return Err(e);
                        },
                    }
                } else {
                    proof {
                        lemma_removal_steps(deck@.len() as int, size as int, n as int, 0);
                        vstd::arithmetic::div_mod::lemma_mod_bound(deck@.len() - size, n as int);
                        assert(removal_plan(removal_number(level, lowest_min(decks@), self.propagated.players_spec()), 0) =~= Seq::<Card>::empty());
                    }
                }
                size
            },
            None => {
                let mut kitty_size = deck.len() % n;
                if kitty_size == 0 {
                    kitty_size = n;
                }
                if kitty_size < 5 {
                    kitty_size += n;
                }
                kitty_size
            },
        };
        proof {
            if self.propagated.kitty_size_spec() is None {
                assert(removed_cards@.len() == 0);
            }
        }
        let split = deck.len() - kitty_size;
        let kitty = vstd::slice::slice_subrange(deck.as_slice(), split, deck.len());
        let kitty = vstd::slice::slice_to_vec(kitty);
        deck.truncate(split);
        let propagated = self.propagated.clone();
        Ok(DrawPhase::new(propagated, position, deck, kitty, num_decks, game_mode, level, decks, removed_cards))
    }

    /// The number whose cards go to make the kitty size work out.
    fn removal_number(&self, level: Option<Rank>, min_number: Number) -> (r: Number)
        ensures
            r == removal_number(level, min_number, self.propagated.players_spec()),
    {
        match level {
            Some(Rank::Number(l)) => {
                if l == min_number {
                    match min_number.successor() {
                        Some(m) => m,
                        None => min_number,
                    }
                } else {
                    min_number
                }
            },
            Some(Rank::NoTrump) => min_number,
            None => {
                let players = self.propagated.players();
                let mut n = min_number;
                loop
                    invariant
                        level is None,
                        players@ == self.propagated.players_spec(),
                        first_removable(n, min_number, players@) == first_removable(min_number, min_number, players@),
                    decreases 12 - num_index(n),
                {
                    let mut bad = n == Number::Five || n == Number::Ten || n == Number::King;
                    let mut i: usize = 0;
                    while i < players.len()
                        invariant
                            i <= players.len(),
                            bad == (n == Number::Five || n == Number::Ten || n == Number::King
                                || exists|j: int| 0 <= j < i && (#[trigger] players@[j]).level == Rank::Number(n)),
                        decreases players.len() - i,
                    {
                        if players[i].level == Rank::Number(n) {
                            bad = true;
                        }
                        i += 1;
                    }
                    if !bad {
                        return n;
                    }
                    match n.successor() {
                        Some(m) => {
                            n = m;
                        },
                        None => {
                            return min_number;
                        },
                    }
                }
            },
        }
    }
}


/// The level of the landlord a game starts with, when the landlord is a
/// player; `None` when there is no landlord.
pub open spec fn start_level(p: PropagatedState) -> Option<Rank> {
    match p.landlord_spec() {
        Some(l) => Some(first_with_id(p.players_spec(), l).level),
        None => None,
    }
}

/// The cards a game must take out of the decks, when the landlord (if
/// any) is a player.
pub open spec fn start_plan(p: PropagatedState) -> Seq<Card> {
    let n = p.players_spec().len() as int;
    let len = p.num_decks_spec() * 54;
    cards_to_remove(p.kitty_size_spec(), len, n, removal_number(start_level(p), Number::Two, p.players_spec()))
}

proof fn lemma_lowest_min_standard(decks: Seq<Deck>)
    requires
        decks.len() >= 1,
        forall|i: int| 0 <= i < decks.len() ==> decks[i] == standard_deck(),
    ensures
        lowest_min(decks) == Number::Two,
    decreases decks.len(),
{
    if decks.len() > 1 {
        lemma_lowest_min_standard(decks.drop_last());
    }
}

proof fn lemma_default_kitty_fits(len: int, n: int)
    requires
        len >= 54,
        n >= 4,
    ensures
        default_kitty(len, n) <= len,
{
    vstd::arithmetic::div_mod::lemma_fundamental_div_mod(len, n);
    vstd::arithmetic::div_mod::lemma_mod_bound(len, n);
    if n > len {
        vstd::arithmetic::div_mod::lemma_small_mod(len as nat, n as nat);
    } else {
        let q = len / n;
        assert(q >= 1) by {
            if q <= 0 {
                assert(n * q <= 0) by (nonlinear_arith)
                    requires
                        n >= 4,
                        q <= 0,
                ;
            }
        }
        assert(n * q >= n) by (nonlinear_arith)
            requires
                n >= 4,
                q >= 1,
        ;
    }
}

/// The position of the first player with the given id.
fn find_player(players: &[Player], id: PlayerID) -> (r: Option<usize>)
    ensures
        r matches Some(i) ==> is_first_position(players@, id, i as int),
        r is None <==> !id_in(players@, id),
{
    let mut i: usize = 0;
    while i < players.len()
        invariant
            i <= players.len(),
            forall|j: int| 0 <= j < i ==> players@[j].id != id,
        decreases players.len() - i,
    {
        if players[i].id == id {
            return Some(i);
        }
        i += 1;
    }
    None
}

proof fn lemma_first_position(players: Seq<Player>, id: PlayerID, pos: int)
    requires
        is_first_position(players, id, pos),
    ensures
        players[pos] == first_with_id(players, id),
    decreases pos,
{
    if pos > 0 {
        lemma_first_position(players.drop_first(), id, pos - 1);
    }
}

impl InitializePhase {
    /// Starts a game: checks that it may start, picks who leads (the
    /// landlord, or a player drawn at random), shuffles the decks' cards and
    /// deals them.
    pub fn start(&self, id: PlayerID) -> (r: Result<DrawPhase, GameError>)
        requires
            self.propagated_spec().num_decks_spec() * 54 <= usize::MAX,
            kitty_fits(self.propagated_spec()),
        ensures
            start_error(self.propagated_spec(), id) matches Some(e) ==> r == Err::<DrawPhase, GameError>(e),
            start_error(self.propagated_spec(), id) is None ==> (r is Err ==> r == Err::<DrawPhase, GameError>(GameError::CardToRemoveMissing)),
            start_error(self.propagated_spec(), id) is None && (self.propagated_spec().landlord_spec() matches Some(l) ==> id_in(self.propagated_spec().players_spec(), l)) ==> (r is Err <==> !start_plan(self.propagated_spec()).to_multiset().subset_of(
                all_cards(standard_decks(self.propagated_spec().num_decks_spec())).to_multiset(),
            )),
            r matches Ok(dp) ==> dealt_from(self.propagated_spec(), dp),
    {
        let players = self.propagated.players();
        let n = players.len();
        if n < 4 {
            return Err(GameError::NotEnoughPlayers);
        }
        let landlord = self.propagated.landlord();
        if self.propagated.game_start_policy() == GameStartPolicy::AllowLandlordOnly {
            if let Some(l) = landlord {
                if l != id {
                    return Err(GameError::OnlyLandlordStarts);
                }
            }
        }
        let game_mode = match self.propagated.game_mode() {
            GameModeSettings::FindingFriends { num_friends: Some(k) } => {
                let friends: Vec<Friend> = Vec::new();
                if k < n - 1 {
                    GameMode::FindingFriends { num_friends: k, friends }
                } else {
                    GameMode::FindingFriends { num_friends: n / 2 - 1, friends }
                }
            },
            GameModeSettings::FindingFriends { num_friends: None } => {
                let friends: Vec<Friend> = Vec::new();
                GameMode::FindingFriends { num_friends: n / 2 - 1, friends }
            },
            GameModeSettings::Tractor => {
                if n % 2 == 0 {
                    GameMode::Tractor
                } else {
                    return Err(GameError::OddPlayersForTractor);
                }
            },
        };
        let mut rng = thread_rng();
        let found = match landlord {
            Some(l) => find_player(players, l),
            None => None,
        };
        let position = match found {
            Some(p) => p,
            None => (next_u32(&mut rng) as usize) % n,
        };
        let level = match landlord {
            Some(_) => Some(players[position].level),
            None => None,
        };
        let num_decks = self.propagated.num_decks();
        if num_decks == 0 {
            return Err(GameError::Settings { source: SettingsError::NoDecks });
        }
        let decks = match self.propagated.decks() {
            Ok(d) => d,
            Err(e) => {
                return Err(GameError::Settings { source: e });
            },
        };
        let mut deck: Vec<Card> = Vec::new();
        let mut i: usize = 0;
        while i < decks.len()
            invariant
                i <= decks.len(),
                decks@ == standard_decks(num_decks as int),
                num_decks * 54 <= usize::MAX,
                deck@ == all_cards(decks@.subrange(0, i as int)),
                deck@.len() == 54 * i,
            decreases decks.len() - i,
        {
            let mut more = decks[i].cards();
            proof {
                assert(decks@.subrange(0, i + 1).drop_last() =~= decks@.subrange(0, i as int));
                crate::deck::lemma_full_deck_cards(decks@[i as int]);
            }
            deck.append(&mut more);
            i += 1;
        }
        proof {
            assert(decks@.subrange(0, decks.len() as int) =~= decks@);
            lemma_lowest_min_standard(decks@);
        }
        // Every player must be able to bid: the landlord's level, or that of
        // every player when there is no landlord, must be in some deck.
        let mut can_bid = true;
        match level {
            Some(Rank::Number(l)) => {
                can_bid = self.some_deck_has(&decks, l);
            },
            Some(Rank::NoTrump) => {},
            None => {
                let mut j: usize = 0;
                while j < players.len()
                    invariant
                        j <= players.len(),
                        can_bid == (forall|k: int| 0 <= k < j ==> can_bid_at(decks@, (#[trigger] players@[k]).level)),
                    decreases players.len() - j,
                {
                    let ok = match players[j].level {
                        Rank::Number(l) => self.some_deck_has(&decks, l),
                        Rank::NoTrump => true,
                    };
                    can_bid = can_bid && ok;
                    j += 1;
                }
            },
        }
        proof {
            assert(bid_cards_present(decks@, level, players@)) by {
                assert(deck_includes_number(decks@[0], Number::Two));
                assert forall|x: Number| some_deck_has(decks@, x) by {
                    assert(deck_includes_number(decks@[0], x));
                }
            }
        }
        if !can_bid {
            return Err(GameError::MissingBidCards);
        }
        let ghost before = deck@;
        shuffle_cards(&mut deck, &mut rng);
        proof {
            broadcast use vstd::seq_lib::group_to_multiset_ensures;
            assert(deck@.len() == before.len()) by {
                assert(deck@.to_multiset().len() == before.to_multiset().len());
            }
            let len = deck@.len() as int;
            let p = self.propagated;
            lemma_default_kitty_fits(len, n as int);
            if landlord is Some && found is Some {
                lemma_first_position(players@, landlord->0, position as int);
            }
            let plan = cards_to_remove(p.kitty_size_spec(), len, n as int, removal_number(level, lowest_min(decks@), p.players_spec()));
            lemma_remove_each_multiset(deck@, plan);
            if let Some(rest) = remove_each(deck@, plan) {
                let kitty = kitty_size_for(p.kitty_size_spec(), len, n as int);
                let d1 = rest.subrange(0, rest.len() - kitty);
                let k1 = rest.subrange(rest.len() - kitty, rest.len() as int);
                assert(d1 + k1 =~= rest);
                vstd::seq_lib::lemma_multiset_commutative(rest, plan);
                assert((rest + plan).to_multiset() =~= before.to_multiset());
            }
        }
        self.deal(position, level, game_mode, num_decks, decks, deck)
    }

    fn some_deck_has(&self, decks: &Vec<Deck>, n: Number) -> (r: bool)
        ensures
            r == some_deck_has(decks@, n),
    {
        let mut i: usize = 0;
        while i < decks.len()
            invariant
                i <= decks.len(),
                forall|j: int| 0 <= j < i ==> !deck_includes_number(#[trigger] decks@[j], n),
            decreases decks.len() - i,
        {
            if decks[i].includes_number(n) {
                return true;
            }
            i += 1;
        }
        false
    }
}


/// What going back to setting up comes to from the state `p`: a message
/// that the game is being reset, then every observer made a player (see
/// `make_all_observers_into_players`), in a new game being set up.
pub open spec fn resets(p: PropagatedState, r: Result<(InitializePhase, Vec<MessageVariant>), GameError>) -> bool {
    &&& p.observers_spec().len() == 0 ==> (r matches Ok((init, msgs)) && msgs@ == seq![MessageVariant::ResettingGame]
        && init.propagated_spec().same_state(p))
    &&& p.observers_spec().len() > 0 ==> exists|mid: PropagatedState| #[trigger] mid.same_state(p) && {
        let o = mid.roster_outcome(p.players_spec() + p.observers_spec().reverse(), Seq::empty(), p.landlord_spec(), p.next_id());
        match o.1 {
            Err(e) => r == Err::<(InitializePhase, Vec<MessageVariant>), GameError>(GameError::Settings { source: e }),
            Ok(m) => r matches Ok((init, msgs)) && msgs@.len() >= 1 && msgs@[0] == MessageVariant::ResettingGame
                && init.propagated_spec().same_state(o.0)
                && same_messages(msgs@.drop_first(), joined_messages(p.observers_spec().reverse()) + m),
        }
    }
}

/// Goes back to setting up from the state `p` of a game under way: see
/// `resets`.
pub fn reset_game(p: &PropagatedState) -> (r: Result<(InitializePhase, Vec<MessageVariant>), GameError>)
    requires
        p.can_recount((p.players_spec().len() + p.observers_spec().len()) as int),
    ensures
        resets(*p, r),
{
    let mut msgs: Vec<MessageVariant> = Vec::new();
    msgs.push(MessageVariant::ResettingGame);
    let mut propagated = p.clone();
    let ghost mid = propagated;
    proof {
        mid.lemma_same_state_settings(*p, (p.players_spec().len() + p.observers_spec().len()) as int);
    }
    let mut more = match propagated.make_all_observers_into_players() {
        Ok(m) => m,
        Err(e) => {
            return Err(GameError::Settings { source: e });
        },
    };
    let ghost joined = more@;
    msgs.append(&mut more);
    proof {
        assert(msgs@.drop_first() =~= joined);
    }
    Ok((InitializePhase::from_propagated(propagated), msgs))
}

} // verus!
