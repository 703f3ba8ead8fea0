use std::cmp::Ordering;

use vstd::prelude::*;

pub mod cards;

verus! {

/// A seat at the table, identified by a number.
#[derive(Debug, Copy, Clone, Hash, PartialEq, Eq, Structural)]
pub struct PlayerID(pub usize);

/// The four suits of a standard deck.
#[derive(Debug, Copy, Clone, Hash, PartialEq, Eq, Structural)]
pub enum Suit {
    Clubs,
    Diamonds,
    Spades,
    Hearts,
}

/// The thirteen card numbers, listed from lowest to highest natural rank.
#[derive(Debug, Copy, Clone, Hash, PartialEq, Eq, PartialOrd, Ord, Structural)]
pub enum Number {
    Two,
    Three,
    Four,
    Five,
    Six,
    Seven,
    Eight,
    Nine,
    Ten,
    Jack,
    Queen,
    King,
    Ace,
}

/// A playing card. `Unknown` stands for a card whose face is hidden.
#[derive(Debug, Copy, Clone, Hash, PartialEq, Eq, Structural)]
pub enum Card {
    Unknown,
    Suited { suit: Suit, number: Number },
    SmallJoker,
    BigJoker,
}

/// The suit a card counts as once the trump is known.
#[derive(Debug, Copy, Clone, Hash, PartialEq, Eq, PartialOrd, Ord, Structural)]
pub enum EffectiveSuit {
    Unknown,
    Clubs,
    Diamonds,
    Spades,
    Hearts,
    Trump,
}

/// The trump of a hand: either a trump suit together with the trump number, or
/// only a trump number.
#[derive(Debug, Copy, Clone, Hash, PartialEq, Eq, Structural)]
pub enum Trump {
    Standard { suit: Suit, number: Number },
    NoTrump { number: Number },
}

/// The level a player is at: a card number, or the final no-trump level.
#[derive(Debug, Copy, Clone, Hash, PartialEq, Eq, Structural)]
pub enum Rank {
    Number(Number),
    NoTrump,
}

// ---------------------------------------------------------------------------
// Mathematical model of numbers, suits and cards
// ---------------------------------------------------------------------------

/// Position of a number in the natural order: Two is 0, Ace is 12.
pub open spec fn num_index(n: Number) -> int {
    match n {
        Number::Two => 0,
        Number::Three => 1,
        Number::Four => 2,
        Number::Five => 3,
        Number::Six => 4,
        Number::Seven => 5,
        Number::Eight => 6,
        Number::Nine => 7,
        Number::Ten => 8,
        Number::Jack => 9,
        Number::Queen => 10,
        Number::King => 11,
        Number::Ace => 12,
    }
}

/// The number with the given position in the natural order.
pub open spec fn num_at(i: int) -> Number
    recommends
        0 <= i < 13,
{
    if i <= 0 {
        Number::Two
    } else if i == 1 {
        Number::Three
    } else if i == 2 {
        Number::Four
    } else if i == 3 {
        Number::Five
    } else if i == 4 {
        Number::Six
    } else if i == 5 {
        Number::Seven
    } else if i == 6 {
        Number::Eight
    } else if i == 7 {
        Number::Nine
    } else if i == 8 {
        Number::Ten
    } else if i == 9 {
        Number::Jack
    } else if i == 10 {
        Number::Queen
    } else if i == 11 {
        Number::King
    } else {
        Number::Ace
    }
}

/// The face value printed on a card of this number; an ace counts as 1.
pub open spec fn face_value(n: Number) -> int {
    if n == Number::Ace {
        1
    } else {
        num_index(n) + 2
    }
}

/// The short textual name of a number.
pub open spec fn number_text(n: Number) -> Seq<char> {
    match n {
        Number::Two => seq!['2'],
        Number::Three => seq!['3'],
        Number::Four => seq!['4'],
        Number::Five => seq!['5'],
        Number::Six => seq!['6'],
        Number::Seven => seq!['7'],
        Number::Eight => seq!['8'],
        Number::Nine => seq!['9'],
        Number::Ten => seq!['1', '0'],
        Number::Jack => seq!['J'],
        Number::Queen => seq!['Q'],
        Number::King => seq!['K'],
        Number::Ace => seq!['A'],
    }
}

/// Point value of a number: fives are worth 5, tens and kings 10.
pub open spec fn number_points(n: Number) -> Option<usize> {
    match n {
        Number::Five => Some(5usize),
        Number::Ten | Number::King => Some(10usize),
        _ => None,
    }
}

/// The start of the block of the Unicode playing-card range used for a suit.
pub open spec fn suit_base(s: Suit) -> int {
    match s {
        Suit::Spades => 0x1F0A0,
        Suit::Hearts => 0x1F0B0,
        Suit::Diamonds => 0x1F0C0,
        Suit::Clubs => 0x1F0D0,
    }
}

/// The offset of a number inside a suit's Unicode block (the knight, 0xC, is skipped).
pub open spec fn number_offset(n: Number) -> int {
    match n {
        Number::Ace => 1,
        Number::Jack => 11,
        Number::Queen => 13,
        Number::King => 14,
        _ => num_index(n) + 2,
    }
}

/// The Unicode code point of the playing-card glyph for a card.
pub open spec fn card_code(c: Card) -> int {
    match c {
        Card::Unknown => 0x1F0A0,
        Card::SmallJoker => 0x1F0DF,
        Card::BigJoker => 0x1F0CF,
        Card::Suited { suit, number } => suit_base(suit) + number_offset(number),
    }
}

/// The symbol used for a suit.
pub open spec fn suit_symbol(s: Suit) -> char {
    match s {
        Suit::Hearts => '\u{2661}',
        Suit::Diamonds => '\u{2662}',
        Suit::Spades => '\u{2664}',
        Suit::Clubs => '\u{2667}',
    }
}

/// Order of suits when two bids of equal length are compared: diamonds,
/// clubs, hearts, spades.
pub open spec fn suit_bid_rank(s: Suit) -> int {
    match s {
        Suit::Diamonds => 0,
        Suit::Clubs => 1,
        Suit::Hearts => 2,
        Suit::Spades => 3,
    }
}

pub open spec fn card_number(c: Card) -> Option<Number> {
    match c {
        Card::Suited { number, .. } => Some(number),
        _ => None,
    }
}

pub open spec fn card_suit(c: Card) -> Option<Suit> {
    match c {
        Card::Suited { suit, .. } => Some(suit),
        _ => None,
    }
}

pub open spec fn is_joker_spec(c: Card) -> bool {
    c == Card::SmallJoker || c == Card::BigJoker
}

pub open spec fn card_points(c: Card) -> Option<usize> {
    match c {
        Card::Suited { number, .. } => number_points(number),
        _ => None,
    }
}

pub open spec fn trump_number(t: Trump) -> Number {
    match t {
        Trump::Standard { number, .. } => number,
        Trump::NoTrump { number } => number,
    }
}

pub open spec fn trump_suit(t: Trump) -> Option<Suit> {
    match t {
        Trump::Standard { suit, .. } => Some(suit),
        Trump::NoTrump { .. } => None,
    }
}

pub open spec fn plain_effective_suit(s: Suit) -> EffectiveSuit {
    match s {
        Suit::Clubs => EffectiveSuit::Clubs,
        Suit::Diamonds => EffectiveSuit::Diamonds,
        Suit::Spades => EffectiveSuit::Spades,
        Suit::Hearts => EffectiveSuit::Hearts,
    }
}

/// The effective suit of a card under a trump: jokers, cards of the trump
/// number and cards of the trump suit are all trump.
pub open spec fn effective_suit_of(t: Trump, c: Card) -> EffectiveSuit {
    match c {
        Card::Unknown => EffectiveSuit::Unknown,
        Card::SmallJoker | Card::BigJoker => EffectiveSuit::Trump,
        Card::Suited { suit, number } => {
            if number == trump_number(t) || trump_suit(t) == Some(suit) {
                EffectiveSuit::Trump
            } else {
                plain_effective_suit(suit)
            }
        },
    }
}

/// The position of an effective suit in the sort order of a hand. The trump
/// suit sorts last, and the other suits keep alternating colors.
pub open spec fn suit_ordinal_of(t: Trump, c: Card) -> int {
    let es = effective_suit_of(t, c);
    if es == EffectiveSuit::Unknown {
        0
    } else if es == EffectiveSuit::Trump {
        5
    } else {
        match t {
            Trump::Standard { suit: Suit::Clubs, .. } => match es {
                EffectiveSuit::Diamonds => 1,
                EffectiveSuit::Spades => 2,
                EffectiveSuit::Hearts => 3,
                _ => 4,
            },
            Trump::Standard { suit: Suit::Diamonds, .. } => match es {
                EffectiveSuit::Spades => 1,
                EffectiveSuit::Hearts => 2,
                EffectiveSuit::Clubs => 3,
                _ => 4,
            },
            Trump::Standard { suit: Suit::Spades, .. } => match es {
                EffectiveSuit::Hearts => 1,
                EffectiveSuit::Clubs => 2,
                EffectiveSuit::Diamonds => 3,
                _ => 4,
            },
            _ => match es {
                EffectiveSuit::Clubs => 1,
                EffectiveSuit::Diamonds => 2,
                EffectiveSuit::Spades => 3,
                _ => 4,
            },
        }
    }
}

/// The strength of a card inside its effective suit.
pub open spec fn strength_in_suit(t: Trump, c: Card) -> int {
    match c {
        Card::Unknown => 0,
        Card::BigJoker => 100,
        Card::SmallJoker => 99,
        Card::Suited { suit, number } => {
            if number == trump_number(t) {
                if trump_suit(t) == Some(suit) {
                    98
                } else {
                    97
                }
            } else {
                num_index(number) + 1
            }
        },
    }
}

/// The key by which `compare_effective` orders cards: effective suit first,
/// then strength.
pub open spec fn effective_key(t: Trump, c: Card) -> int {
    suit_ordinal_of(t, c) * 128 + strength_in_suit(t, c)
}

/// The key by which `compare` orders cards: the effective key, with ties
/// broken by the card's code point.
pub open spec fn total_key(t: Trump, c: Card) -> int {
    effective_key(t, c) * 0x20000 + card_code(c)
}

/// The ordering of two integers.
pub open spec fn ordering_of(a: int, b: int) -> Ordering {
    if a < b {
        Ordering::Less
    } else if a == b {
        Ordering::Equal
    } else {
        Ordering::Greater
    }
}

/// The cards that directly follow a card in the trump order, as used to
/// build tractors.
pub open spec fn successors_of(t: Trump, c: Card) -> Seq<Card> {
    match c {
        Card::Unknown => seq![],
        Card::BigJoker => seq![],
        Card::SmallJoker => seq![Card::BigJoker],
        Card::Suited { suit, number } => {
            if number == trump_number(t) {
                match t {
                    Trump::Standard { suit: ts, number: tn } => {
                        if suit == ts {
                            seq![Card::SmallJoker]
                        } else {
                            seq![Card::Suited { suit: ts, number: tn }]
                        }
                    },
                    Trump::NoTrump { .. } => seq![Card::SmallJoker],
                }
            } else {
                let skip = num_index(number) + 1 == num_index(trump_number(t));
                let next = if skip { num_index(number) + 2 } else { num_index(number) + 1 };
                if next <= 12 {
                    seq![Card::Suited { suit, number: num_at(next) }]
                } else if effective_suit_of(t, c) == EffectiveSuit::Trump {
                    off_suit_trump_number_cards(t)
                } else {
                    seq![]
                }
            }
        },
    }
}

/// The cards of the trump number in every suit but the trump suit, in the
/// order spades, hearts, diamonds, clubs.
pub open spec fn off_suit_trump_number_cards(t: Trump) -> Seq<Card> {
    let n = trump_number(t);
    let s = if trump_suit(t) == Some(Suit::Spades) { seq![] } else { seq![Card::Suited { suit: Suit::Spades, number: n }] };
    let h = if trump_suit(t) == Some(Suit::Hearts) { seq![] } else { seq![Card::Suited { suit: Suit::Hearts, number: n }] };
    let d = if trump_suit(t) == Some(Suit::Diamonds) { seq![] } else { seq![Card::Suited { suit: Suit::Diamonds, number: n }] };
    let c = if trump_suit(t) == Some(Suit::Clubs) { seq![] } else { seq![Card::Suited { suit: Suit::Clubs, number: n }] };
    s + h + d + c
}

/// The card whose glyph has the given code point, if there is one.
pub open spec fn card_of_code(code: int) -> Option<Card> {
    if exists|c: Card| card_code(c) == code {
        Some(choose|c: Card| card_code(c) == code)
    } else {
        None
    }
}

/// Reading a card's glyph back gives the card.
pub proof fn lemma_char_roundtrip(c: Card)
    ensures
        card_of_code(card_code(c)) == Some(c),
{
    let d = choose|d: Card| card_code(d) == card_code(c);
    lemma_card_code_injective(c, d);
}

/// `compare` orders cards totally: swapping the cards reverses the result,
/// only a card compares equal to itself, and "less than" is transitive.
pub proof fn lemma_compare_total_order(t: Trump, a: Card, b: Card, c: Card)
    ensures
        (ordering_of(total_key(t, a), total_key(t, b)) == Ordering::Less) == (ordering_of(total_key(t, b), total_key(t, a)) == Ordering::Greater),
        (ordering_of(total_key(t, a), total_key(t, b)) == Ordering::Equal) == (a == b),
        ordering_of(total_key(t, a), total_key(t, b)) == Ordering::Less && ordering_of(total_key(t, b), total_key(t, c)) == Ordering::Less
            ==> ordering_of(total_key(t, a), total_key(t, c)) == Ordering::Less,
{
    lemma_total_key_injective(t, a, b);
}

/// Two distinct cards never share a code point.
pub proof fn lemma_card_code_injective(a: Card, b: Card)
    ensures
        card_code(a) == card_code(b) ==> a == b,
{
}

/// Cards are totally ordered by `total_key`: distinct cards have distinct keys.
pub proof fn lemma_total_key_injective(t: Trump, a: Card, b: Card)
    ensures
        total_key(t, a) == total_key(t, b) ==> a == b,
{
    assert(0 <= strength_in_suit(t, a) < 128);
    assert(0 <= strength_in_suit(t, b) < 128);
    assert(0x1F0A0 <= card_code(a) < 0x20000);
    assert(0x1F0A0 <= card_code(b) < 0x20000);
    if total_key(t, a) == total_key(t, b) {
        assert(effective_key(t, a) == effective_key(t, b)) by (nonlinear_arith)
            requires
                total_key(t, a) == effective_key(t, a) * 0x20000 + card_code(a),
                total_key(t, b) == effective_key(t, b) * 0x20000 + card_code(b),
                total_key(t, a) == total_key(t, b),
                0x1F0A0 <= card_code(a) < 0x20000,
                0x1F0A0 <= card_code(b) < 0x20000,
        ;
        lemma_card_code_injective(a, b);
    }
}


/// Effective keys are small.
pub proof fn lemma_key_bound_effective(t: Trump, c: Card)
    ensures
        0 <= effective_key(t, c) <= 740,
{
}

/// Every card that follows a card when forming tractors is strictly stronger.
pub proof fn lemma_successor_stronger(t: Trump, c: Card, i: int)
    requires
        0 <= i < successors_of(t, c).len(),
    ensures
        effective_key(t, successors_of(t, c)[i]) > effective_key(t, c),
        effective_suit_of(t, successors_of(t, c)[i]) == effective_suit_of(t, c),
{
    let n = successors_of(t, c)[i];
    match c {
        Card::Suited { suit, number } => {
            if number != trump_number(t) {
                let skip = num_index(number) + 1 == num_index(trump_number(t));
                let next = if skip { num_index(number) + 2 } else { num_index(number) + 1 };
                if next <= 12 {
                    assert(num_index(num_at(next)) == next);
                }
            }
        },
        _ => {},
    }
}

// ---------------------------------------------------------------------------
// Executable functions
// ---------------------------------------------------------------------------

impl Number {
    /// The position of this number in the natural order (Two is 0, Ace is 12).
    pub fn index(self) -> (r: u8)
        ensures
            r as int == num_index(self),
    {
        match self {
            Number::Two => 0,
            Number::Three => 1,
            Number::Four => 2,
            Number::Five => 3,
            Number::Six => 4,
            Number::Seven => 5,
            Number::Eight => 6,
            Number::Nine => 7,
            Number::Ten => 8,
            Number::Jack => 9,
            Number::Queen => 10,
            Number::King => 11,
            Number::Ace => 12,
        }
    }

    /// The number at a position of the natural order.
    pub fn from_index(i: u8) -> (r: Number)
        requires
            i < 13,
        ensures
            num_index(r) == i,
            r == num_at(i as int),
    {
        match i {
            0 => Number::Two,
            1 => Number::Three,
            2 => Number::Four,
            3 => Number::Five,
            4 => Number::Six,
            5 => Number::Seven,
            6 => Number::Eight,
            7 => Number::Nine,
            8 => Number::Ten,
            9 => Number::Jack,
            10 => Number::Queen,
            11 => Number::King,
            _ => Number::Ace,
        }
    }

    pub fn as_u32(self) -> (r: u32)
        ensures
            r as int == face_value(self),
    {
        match self {
            Number::Two => 2,
            Number::Three => 3,
            Number::Four => 4,
            Number::Five => 5,
            Number::Six => 6,
            Number::Seven => 7,
            Number::Eight => 8,
            Number::Nine => 9,
            Number::Ten => 10,
            Number::Jack => 11,
            Number::Queen => 12,
            Number::King => 13,
            Number::Ace => 1,
        }
    }

    pub fn from_u32(n: u32) -> (r: Option<Number>)
        ensures
            r matches Some(k) ==> face_value(k) == n,
            r is None <==> !(1 <= n <= 13),
    {
        match n {
            2 => Some(Number::Two),
            3 => Some(Number::Three),
            4 => Some(Number::Four),
            5 => Some(Number::Five),
            6 => Some(Number::Six),
            7 => Some(Number::Seven),
            8 => Some(Number::Eight),
            9 => Some(Number::Nine),
            10 => Some(Number::Ten),
            11 => Some(Number::Jack),
            12 => Some(Number::Queen),
            13 => Some(Number::King),
            1 => Some(Number::Ace),
            _ => None,
        }
    }

    pub fn successor(self) -> (r: Option<Number>)
        ensures
            r matches Some(k) ==> num_index(k) == num_index(self) + 1,
            r is None <==> self == Number::Ace,
    {
        match self {
            Number::Two => Some(Number::Three),
            Number::Three => Some(Number::Four),
            Number::Four => Some(Number::Five),
            Number::Five => Some(Number::Six),
            Number::Six => Some(Number::Seven),
            Number::Seven => Some(Number::Eight),
            Number::Eight => Some(Number::Nine),
            Number::Nine => Some(Number::Ten),
            Number::Ten => Some(Number::Jack),
            Number::Jack => Some(Number::Queen),
            Number::Queen => Some(Number::King),
            Number::King => Some(Number::Ace),
            Number::Ace => None,
        }
    }

    pub fn predecessor(self) -> (r: Option<Number>)
        ensures
            r matches Some(k) ==> num_index(k) + 1 == num_index(self),
            r is None <==> self == Number::Two,
    {
        match self {
            Number::Two => None,
            Number::Three => Some(Number::Two),
            Number::Four => Some(Number::Three),
            Number::Five => Some(Number::Four),
            Number::Six => Some(Number::Five),
            Number::Seven => Some(Number::Six),
            Number::Eight => Some(Number::Seven),
            Number::Nine => Some(Number::Eight),
            Number::Ten => Some(Number::Nine),
            Number::Jack => Some(Number::Ten),
            Number::Queen => Some(Number::Jack),
            Number::King => Some(Number::Queen),
            Number::Ace => Some(Number::King),
        }
    }

    pub fn as_str(self) -> (r: &'static str)
        ensures
            r@ == number_text(self),
    {
        proof {
            reveal_strlit("2");
            reveal_strlit("3");
            reveal_strlit("4");
            reveal_strlit("5");
            reveal_strlit("6");
            reveal_strlit("7");
            reveal_strlit("8");
            reveal_strlit("9");
            reveal_strlit("10");
            reveal_strlit("J");
            reveal_strlit("Q");
            reveal_strlit("K");
            reveal_strlit("A");
        }
        match self {
            Number::Two => "2",
            Number::Three => "3",
            Number::Four => "4",
            Number::Five => "5",
            Number::Six => "6",
            Number::Seven => "7",
            Number::Eight => "8",
            Number::Nine => "9",
            Number::Ten => "10",
            Number::Jack => "J",
            Number::Queen => "Q",
            Number::King => "K",
            Number::Ace => "A",
        }
    }

    pub fn from_str(s: &str) -> (r: Option<Number>)
        ensures
            r matches Some(k) ==> number_text(k) == s@,
            r is None ==> forall|k: Number| number_text(k) != s@,
    {
        let len = s.unicode_len();
        if len == 1 {
            let c = s.get_char(0);
            let r = if c == '2' {
                Some(Number::Two)
            } else if c == '3' {
                Some(Number::Three)
            } else if c == '4' {
                Some(Number::Four)
            } else if c == '5' {
                Some(Number::Five)
            } else if c == '6' {
                Some(Number::Six)
            } else if c == '7' {
                Some(Number::Seven)
            } else if c == '8' {
                Some(Number::Eight)
            } else if c == '9' {
                Some(Number::Nine)
            } else if c == 'J' {
                Some(Number::Jack)
            } else if c == 'Q' {
                Some(Number::Queen)
            } else if c == 'K' {
                Some(Number::King)
            } else if c == 'A' {
                Some(Number::Ace)
            } else {
                None
            };
            proof {
                if r is Some {
                    assert(number_text(r->0) =~= s@);
                } else {
                    assert forall|k: Number| number_text(k) != s@ by {
                        if number_text(k) == s@ {
                            assert(number_text(k)[0] == s@[0]);
                        }
                    }
                }
            }
            r
        } else if len == 2 && s.get_char(0) == '1' && s.get_char(1) == '0' {
            assert(number_text(Number::Ten) =~= s@);
            Some(Number::Ten)
        } else {
            proof {
                assert forall|k: Number| number_text(k) != s@ by {
                    if number_text(k) == s@ {
                        if len == 2 {
                            assert(number_text(k) == seq!['1', '0']);
                            assert(s@[0] == '1' && s@[1] == '0');
                        }
                    }
                }
            }
            None
        }
    }

    pub fn points(self) -> (r: Option<usize>)
        ensures
            r == number_points(self),
    {
        match self {
            Number::Five => Some(5),
            Number::Ten | Number::King => Some(10),
            _ => None,
        }
    }
}

impl Suit {
    pub fn unicode_offset(self) -> (r: char)
        ensures
            r as int == suit_base(self),
    {
        match self {
            Suit::Spades => '\u{1f0a0}',
            Suit::Hearts => '\u{1f0b0}',
            Suit::Diamonds => '\u{1f0c0}',
            Suit::Clubs => '\u{1f0d0}',
        }
    }

    pub fn as_char(self) -> (r: char)
        ensures
            r == suit_symbol(self),
    {
        match self {
            Suit::Hearts => '\u{2661}',
            Suit::Diamonds => '\u{2662}',
            Suit::Spades => '\u{2664}',
            Suit::Clubs => '\u{2667}',
        }
    }

    pub fn from_char(c: char) -> (r: Option<Suit>)
        ensures
            r matches Some(s) ==> suit_symbol(s) == c,
            r is None ==> forall|s: Suit| suit_symbol(s) != c,
    {
        if c == '\u{2661}' {
            Some(Suit::Hearts)
        } else if c == '\u{2662}' {
            Some(Suit::Diamonds)
        } else if c == '\u{2664}' {
            Some(Suit::Spades)
        } else if c == '\u{2667}' {
            Some(Suit::Clubs)
        } else {
            None
        }
    }

    /// The rank of this suit when bids of equal length are compared.
    pub fn bid_rank(self) -> (r: u8)
        ensures
            r as int == suit_bid_rank(self),
    {
        match self {
            Suit::Diamonds => 0,
            Suit::Clubs => 1,
            Suit::Hearts => 2,
            Suit::Spades => 3,
        }
    }
}


/// Slot of a card in a table of per-card counts: the hidden card, the 52
/// suited cards, then the two jokers.
pub open spec fn card_slot(c: Card) -> int {
    match c {
        Card::Unknown => 0,
        Card::Suited { suit, number } => 1 + suit_index(suit) * 13 + num_index(number),
        Card::SmallJoker => 53,
        Card::BigJoker => 54,
    }
}

pub open spec fn suit_index(s: Suit) -> int {
    match s {
        Suit::Clubs => 0,
        Suit::Diamonds => 1,
        Suit::Spades => 2,
        Suit::Hearts => 3,
    }
}

pub open spec fn suit_at(i: int) -> Suit {
    if i <= 0 {
        Suit::Clubs
    } else if i == 1 {
        Suit::Diamonds
    } else if i == 2 {
        Suit::Spades
    } else {
        Suit::Hearts
    }
}

/// The card held in a slot of a table of per-card counts.
pub open spec fn card_at_slot(i: int) -> Card {
    if i <= 0 {
        Card::Unknown
    } else if i <= 52 {
        Card::Suited { suit: suit_at((i - 1) / 13), number: num_at((i - 1) % 13) }
    } else if i == 53 {
        Card::SmallJoker
    } else {
        Card::BigJoker
    }
}

pub proof fn lemma_slot_roundtrip(c: Card)
    ensures
        0 <= card_slot(c) < 55,
        card_at_slot(card_slot(c)) == c,
{
}

pub proof fn lemma_slot_inverse(i: int)
    requires
        0 <= i < 55,
    ensures
        card_slot(card_at_slot(i)) == i,
{
}

/// Number of times a card occurs in a sequence of cards.
pub open spec fn occurrences(s: Seq<Card>, c: Card) -> nat {
    s.to_multiset().count(c)
}

/// Pushing a card adds one occurrence of it.
pub proof fn lemma_occurrences_push(s: Seq<Card>, x: Card)
    ensures
        forall|c: Card| #[trigger] occurrences(s.push(x), c) == occurrences(s, c) + (if x == c { 1nat } else { 0nat }),
{
    broadcast use vstd::multiset::group_multiset_axioms;
    s.to_multiset_ensures();
    assert forall|c: Card| #[trigger] occurrences(s.push(x), c) == occurrences(s, c) + (if x == c { 1nat } else { 0nat }) by {
        assert(s.push(x).to_multiset() =~= s.to_multiset().insert(x));
    }
}

impl Card {
    pub fn is_joker(self) -> (r: bool)
        ensures
            r == is_joker_spec(self),
    {
        match self {
            Card::SmallJoker | Card::BigJoker => true,
            Card::Unknown | Card::Suited { .. } => false,
        }
    }

    pub fn number(self) -> (r: Option<Number>)
        ensures
            r == card_number(self),
    {
        match self {
            Card::Unknown | Card::SmallJoker | Card::BigJoker => None,
            Card::Suited { number, .. } => Some(number),
        }
    }

    pub fn points(self) -> (r: Option<usize>)
        ensures
            r == card_points(self),
    {
        match self.number() {
            Some(n) => n.points(),
            None => None,
        }
    }

    pub fn suit(self) -> (r: Option<Suit>)
        ensures
            r == card_suit(self),
    {
        match self {
            Card::Unknown | Card::SmallJoker | Card::BigJoker => None,
            Card::Suited { suit, .. } => Some(suit),
        }
    }

    /// The playing-card glyph for this card.
    pub fn as_char(self) -> (r: char)
        ensures
            r as int == card_code(self),
    {
        match self {
            Card::Unknown => '\u{1f0a0}',
            Card::SmallJoker => '\u{1f0df}',
            Card::BigJoker => '\u{1f0cf}',
            Card::Suited { suit, number } => match suit {
                Suit::Clubs => match number {
                    Number::Two => '\u{1f0d2}',
                    Number::Three => '\u{1f0d3}',
                    Number::Four => '\u{1f0d4}',
                    Number::Five => '\u{1f0d5}',
                    Number::Six => '\u{1f0d6}',
                    Number::Seven => '\u{1f0d7}',
                    Number::Eight => '\u{1f0d8}',
                    Number::Nine => '\u{1f0d9}',
                    Number::Ten => '\u{1f0da}',
                    Number::Jack => '\u{1f0db}',
                    Number::Queen => '\u{1f0dd}',
                    Number::King => '\u{1f0de}',
                    Number::Ace => '\u{1f0d1}',
                },
                Suit::Diamonds => match number {
                    Number::Two => '\u{1f0c2}',
                    Number::Three => '\u{1f0c3}',
                    Number::Four => '\u{1f0c4}',
                    Number::Five => '\u{1f0c5}',
                    Number::Six => '\u{1f0c6}',
                    Number::Seven => '\u{1f0c7}',
                    Number::Eight => '\u{1f0c8}',
                    Number::Nine => '\u{1f0c9}',
                    Number::Ten => '\u{1f0ca}',
                    Number::Jack => '\u{1f0cb}',
                    Number::Queen => '\u{1f0cd}',
                    Number::King => '\u{1f0ce}',
                    Number::Ace => '\u{1f0c1}',
                },
                Suit::Hearts => match number {
                    Number::Two => '\u{1f0b2}',
                    Number::Three => '\u{1f0b3}',
                    Number::Four => '\u{1f0b4}',
                    Number::Five => '\u{1f0b5}',
                    Number::Six => '\u{1f0b6}',
                    Number::Seven => '\u{1f0b7}',
                    Number::Eight => '\u{1f0b8}',
                    Number::Nine => '\u{1f0b9}',
                    Number::Ten => '\u{1f0ba}',
                    Number::Jack => '\u{1f0bb}',
                    Number::Queen => '\u{1f0bd}',
                    Number::King => '\u{1f0be}',
                    Number::Ace => '\u{1f0b1}',
                },
                Suit::Spades => match number {
                    Number::Two => '\u{1f0a2}',
                    Number::Three => '\u{1f0a3}',
                    Number::Four => '\u{1f0a4}',
                    Number::Five => '\u{1f0a5}',
                    Number::Six => '\u{1f0a6}',
                    Number::Seven => '\u{1f0a7}',
                    Number::Eight => '\u{1f0a8}',
                    Number::Nine => '\u{1f0a9}',
                    Number::Ten => '\u{1f0aa}',
                    Number::Jack => '\u{1f0ab}',
                    Number::Queen => '\u{1f0ad}',
                    Number::King => '\u{1f0ae}',
                    Number::Ace => '\u{1f0a1}',
                },
            },
        }
    }

    /// The code point of this card's glyph.
    pub fn code(self) -> (r: u32)
        ensures
            r as int == card_code(self),
    {
        self.as_char() as u32
    }

    /// Reads a card back from its glyph.
    pub fn from_char(c: char) -> (r: Option<Card>)
        ensures
            r == card_of_code(c as int),
    {
        let r = Self::read_char(c);
        proof {
            if let Some(card) = r {
                let d = choose|d: Card| card_code(d) == c as int;
                lemma_card_code_injective(card, d);
            }
        }
        r
    }

    fn read_char(c: char) -> (r: Option<Card>)
        ensures
            r matches Some(card) ==> card_code(card) == c as int,
            r is None ==> forall|card: Card| card_code(card) != c as int,
    {
        let code = c as u32;
        if code == 0x1f0a0 {
            return Some(Card::Unknown);
        }
        if code == 0x1f0df {
            return Some(Card::SmallJoker);
        }
        if code == 0x1f0cf {
            return Some(Card::BigJoker);
        }
        if code < 0x1f0a0 || code >= 0x1f0e0 {
            return None;
        }
        let block = (code - 0x1f0a0) / 16;
        let low = code % 16;
        assert(code == 0x1f0a0 + block * 16 + low);
        let suit = if block == 0 {
            Suit::Spades
        } else if block == 1 {
            Suit::Hearts
        } else if block == 2 {
            Suit::Diamonds
        } else {
            Suit::Clubs
        };
        assert(suit_base(suit) == 0x1f0a0 + block * 16);
        let number = if low == 1 {
            Number::Ace
        } else if 2 <= low && low <= 10 {
            Number::from_index((low - 2) as u8)
        } else if low == 11 {
            Number::Jack
        } else if low == 13 {
            Number::Queen
        } else if low == 14 {
            Number::King
        } else {
            proof {
                assert forall|card: Card| card_code(card) != c as int by {
                    if let Card::Suited { suit: s2, number: n2 } = card {
                        if card_code(card) == c as int {
                            assert(0 <= suit_base(s2) - 0x1f0a0 == (suit_base(s2) - 0x1f0a0) / 16 * 16);
                        }
                    }
                }
            }
            return None;
        };
        Some(Card::Suited { suit, number })
    }

    /// The slot of this card in a table of per-card counts.
    pub fn slot(self) -> (r: usize)
        ensures
            r as int == card_slot(self),
            r < 55,
    {
        match self {
            Card::Unknown => 0,
            Card::Suited { suit, number } => {
                let s: usize = match suit {
                    Suit::Clubs => 0,
                    Suit::Diamonds => 1,
                    Suit::Spades => 2,
                    Suit::Hearts => 3,
                };
                1 + s * 13 + number.index() as usize
            },
            Card::SmallJoker => 53,
            Card::BigJoker => 54,
        }
    }

    /// The card held in a slot of a table of per-card counts.
    pub fn at_slot(i: usize) -> (r: Card)
        requires
            i < 55,
        ensures
            r == card_at_slot(i as int),
            card_slot(r) == i,
    {
        proof {
            lemma_slot_inverse(i as int);
        }
        if i == 0 {
            Card::Unknown
        } else if i <= 52 {
            let s = (i - 1) / 13;
            let suit = if s == 0 {
                Suit::Clubs
            } else if s == 1 {
                Suit::Diamonds
            } else if s == 2 {
                Suit::Spades
            } else {
                Suit::Hearts
            };
            Card::Suited { suit, number: Number::from_index(((i - 1) % 13) as u8) }
        } else if i == 53 {
            Card::SmallJoker
        } else {
            Card::BigJoker
        }
    }
}


/// The rank following a rank: the next number, then no-trump after the ace.
pub open spec fn rank_successor(r: Rank) -> Option<Rank> {
    match r {
        Rank::Number(Number::Ace) => Some(Rank::NoTrump),
        Rank::Number(n) => Some(Rank::Number(num_at(num_index(n) + 1))),
        Rank::NoTrump => None,
    }
}

impl Rank {
    pub fn successor(self) -> (r: Option<Rank>)
        ensures
            r == rank_successor(self),
    {
        match self {
            Rank::Number(n) => match n.successor() {
                Some(next) => Some(Rank::Number(next)),
                None => Some(Rank::NoTrump),
            },
            Rank::NoTrump => None,
        }
    }
}

impl Trump {
    pub fn number(self) -> (r: Number)
        ensures
            r == trump_number(self),
    {
        match self {
            Trump::Standard { number, .. } => number,
            Trump::NoTrump { number } => number,
        }
    }

    pub fn suit(self) -> (r: Option<Suit>)
        ensures
            r == trump_suit(self),
    {
        match self {
            Trump::Standard { suit, .. } => Some(suit),
            Trump::NoTrump { .. } => None,
        }
    }

    pub fn effective_suit(self, card: Card) -> (r: EffectiveSuit)
        ensures
            r == effective_suit_of(self, card),
    {
        match card {
            Card::Unknown => EffectiveSuit::Unknown,
            Card::SmallJoker | Card::BigJoker => EffectiveSuit::Trump,
            Card::Suited { suit, number } => {
                if number == self.number() {
                    EffectiveSuit::Trump
                } else if self.suit() == Some(suit) {
                    EffectiveSuit::Trump
                } else {
                    match suit {
                        Suit::Clubs => EffectiveSuit::Clubs,
                        Suit::Diamonds => EffectiveSuit::Diamonds,
                        Suit::Spades => EffectiveSuit::Spades,
                        Suit::Hearts => EffectiveSuit::Hearts,
                    }
                }
            },
        }
    }

    /// The position of the card's effective suit when a hand is sorted.
    pub fn suit_ordinal(self, card: Card) -> (r: u8)
        ensures
            r as int == suit_ordinal_of(self, card),
            r <= 5,
    {
        let effective_suit = self.effective_suit(card);
        match self {
            Trump::Standard { suit: Suit::Clubs, .. } => match effective_suit {
                EffectiveSuit::Unknown => 0,
                EffectiveSuit::Diamonds => 1,
                EffectiveSuit::Spades => 2,
                EffectiveSuit::Hearts => 3,
                EffectiveSuit::Clubs => 4,
                EffectiveSuit::Trump => 5,
            },
            Trump::Standard { suit: Suit::Diamonds, .. } => match effective_suit {
                EffectiveSuit::Unknown => 0,
                EffectiveSuit::Spades => 1,
                EffectiveSuit::Hearts => 2,
                EffectiveSuit::Clubs => 3,
                EffectiveSuit::Diamonds => 4,
                EffectiveSuit::Trump => 5,
            },
            Trump::Standard { suit: Suit::Spades, .. } => match effective_suit {
                EffectiveSuit::Unknown => 0,
                EffectiveSuit::Hearts => 1,
                EffectiveSuit::Clubs => 2,
                EffectiveSuit::Diamonds => 3,
                EffectiveSuit::Spades => 4,
                EffectiveSuit::Trump => 5,
            },
            Trump::Standard { suit: Suit::Hearts, .. } => match effective_suit {
                EffectiveSuit::Unknown => 0,
                EffectiveSuit::Clubs => 1,
                EffectiveSuit::Diamonds => 2,
                EffectiveSuit::Spades => 3,
                EffectiveSuit::Hearts => 4,
                EffectiveSuit::Trump => 5,
            },
            Trump::NoTrump { .. } => match effective_suit {
                EffectiveSuit::Unknown => 0,
                EffectiveSuit::Clubs => 1,
                EffectiveSuit::Diamonds => 2,
                EffectiveSuit::Spades => 3,
                EffectiveSuit::Hearts => 4,
                EffectiveSuit::Trump => 5,
            },
        }
    }

    /// The strength of a card within its effective suit.
    pub fn strength(self, card: Card) -> (r: u8)
        ensures
            r as int == strength_in_suit(self, card),
            r <= 100,
    {
        match card {
            Card::Unknown => 0,
            Card::BigJoker => 100,
            Card::SmallJoker => 99,
            Card::Suited { suit, number } => {
                if number == self.number() {
                    if self.suit() == Some(suit) {
                        98
                    } else {
                        97
                    }
                } else {
                    number.index() + 1
                }
            },
        }
    }

    /// The key by which `compare_effective` orders cards.
    pub fn effective_order_key(self, card: Card) -> (r: u64)
        ensures
            r as int == effective_key(self, card),
    {
        self.suit_ordinal(card) as u64 * 128 + self.strength(card) as u64
    }

    /// The key by which `compare` orders cards.
    pub fn total_order_key(self, card: Card) -> (r: u64)
        ensures
            r as int == total_key(self, card),
    {
        self.effective_order_key(card) * 0x20000 + card.code() as u64
    }

    /// Compares two cards by effective suit and strength only. Distinct cards
    /// of equal strength (such as two off-suit cards of the trump number)
    /// compare as equal.
    pub fn compare_effective(self, card1: Card, card2: Card) -> (r: Ordering)
        ensures
            r == ordering_of(effective_key(self, card1), effective_key(self, card2)),
            card1 == card2 ==> r == Ordering::Equal,
    {
        let a = self.effective_order_key(card1);
        let b = self.effective_order_key(card2);
        if a < b {
            Ordering::Less
        } else if a == b {
            Ordering::Equal
        } else {
            Ordering::Greater
        }
    }

    /// Compares two cards by effective suit and strength, breaking ties by the
    /// card glyph, so that only identical cards compare as equal.
    pub fn compare(self, card1: Card, card2: Card) -> (r: Ordering)
        ensures
            r == ordering_of(total_key(self, card1), total_key(self, card2)),
            r == Ordering::Equal <==> card1 == card2,
    {
        proof {
            lemma_total_key_injective(self, card1, card2);
        }
        let a = self.total_order_key(card1);
        let b = self.total_order_key(card2);
        if a < b {
            Ordering::Less
        } else if a == b {
            Ordering::Equal
        } else {
            Ordering::Greater
        }
    }

    /// The cards of the trump number in every suit but the trump suit.
    fn off_suit_trump_number_cards(self) -> (r: Vec<Card>)
        ensures
            r@ == off_suit_trump_number_cards(self),
    {
        let n = self.number();
        let mut v: Vec<Card> = Vec::new();
        if self.suit() != Some(Suit::Spades) {
            v.push(Card::Suited { suit: Suit::Spades, number: n });
        }
        if self.suit() != Some(Suit::Hearts) {
            v.push(Card::Suited { suit: Suit::Hearts, number: n });
        }
        if self.suit() != Some(Suit::Diamonds) {
            v.push(Card::Suited { suit: Suit::Diamonds, number: n });
        }
        if self.suit() != Some(Suit::Clubs) {
            v.push(Card::Suited { suit: Suit::Clubs, number: n });
        }
        assert(v@ =~= off_suit_trump_number_cards(self));
        v
    }

    /// The cards that directly follow a card when forming tractors.
    pub fn successor(self, card: Card) -> (r: Vec<Card>)
        ensures
            r@ == successors_of(self, card),
    {
        match card {
            Card::Unknown => Vec::new(),
            Card::BigJoker => Vec::new(),
            Card::SmallJoker => {
                let mut v = Vec::new();
                v.push(Card::BigJoker);
                assert(v@ =~= seq![Card::BigJoker]);
                v
            },
            Card::Suited { suit, number } => {
                if number == self.number() {
                    let next = match self {
                        Trump::Standard { suit: trump_suit, number: trump_number } => {
                            if suit == trump_suit {
                                Card::SmallJoker
                            } else {
                                Card::Suited { suit: trump_suit, number: trump_number }
                            }
                        },
                        Trump::NoTrump { .. } => Card::SmallJoker,
                    };
                    let mut v = Vec::new();
                    v.push(next);
                    assert(v@ =~= seq![next]);
                    v
                } else {
                    let skip = number.index() + 1 == self.number().index();
                    let next_index = if skip { number.index() + 2 } else { number.index() + 1 };
                    if next_index <= 12 {
                        let next = Card::Suited { suit, number: Number::from_index(next_index) };
                        let mut v = Vec::new();
                        v.push(next);
                        assert(v@ =~= seq![next]);
                        v
                    } else if self.effective_suit(card) == EffectiveSuit::Trump {
                        self.off_suit_trump_number_cards()
                    } else {
                        let v: Vec<Card> = Vec::new();
                        assert(v@ =~= seq![]);
                        v
                    }
                }
            },
        }
    }
}

/// Per-card counts of a collection of cards, such as a hand.
#[derive(Debug, Clone, Copy)]
pub struct CardCounts {
    slots: [usize; 55],
}

impl CardCounts {
    /// How many copies of a card are counted.
    pub closed spec fn count(self, c: Card) -> nat {
        self.slots@[card_slot(c)] as nat
    }

    /// A count fits a `usize`.
    pub proof fn lemma_count_bound(self, c: Card)
        ensures
            self.count(c) <= usize::MAX,
    {
    }

    /// How many cards are counted, of all kinds.
    pub closed spec fn total(self) -> int {
        crate::ordered_card::seq_sum(self.slots@)
    }

    /// How many cards are counted, of all kinds.
    pub fn total_count(&self) -> (r: usize)
        requires
            self.total() <= usize::MAX,
        ensures
            r == self.total(),
    {
        let mut sum: usize = 0;
        let mut i: usize = 0;
        while i < 55
            invariant
                i <= 55,
                self.slots@.len() == 55,
                crate::ordered_card::seq_sum(self.slots@) <= usize::MAX,
                sum == crate::ordered_card::seq_sum(self.slots@.subrange(0, i as int)),
            decreases 55 - i,
        {
            proof {
                crate::ordered_card::lemma_seq_sum_prefix(self.slots@, i + 1);
            }
            sum = sum + self.slots[i];
            i += 1;
        }
        proof {
            assert(self.slots@.subrange(0, 55) =~= self.slots@);
        }
        sum
    }

    /// Counts of nothing.
    pub fn new() -> (r: CardCounts)
        ensures
            forall|c: Card| r.count(c) == 0,
    {
        let slots: [usize; 55] = [0usize; 55];
        let r = CardCounts { slots };
        proof {
            assert forall|c: Card| r.count(c) == 0 by {
                lemma_slot_roundtrip(c);
            }
        }
        r
    }

    /// The number of copies of a card.
    pub fn get(&self, c: Card) -> (r: usize)
        ensures
            r == self.count(c),
    {
        self.slots[c.slot()]
    }

    /// Adds copies of a card.
    pub fn add(&mut self, c: Card, n: usize)
        requires
            old(self).count(c) + n <= usize::MAX,
        ensures
            final(self).count(c) == old(self).count(c) + n,
            forall|d: Card| d != c ==> final(self).count(d) == old(self).count(d),
    {
        let i = c.slot();
        let v = self.slots[i];
        self.slots[i] = v + n;
        proof {
            assert forall|d: Card| d != c implies self.count(d) == old(self).count(d) by {
                lemma_slot_roundtrip(d);
                lemma_slot_roundtrip(c);
            }
        }
    }

    /// Removes copies of a card that are present.
    pub fn remove(&mut self, c: Card, n: usize)
        requires
            old(self).count(c) >= n,
        ensures
            final(self).count(c) + n == old(self).count(c),
            forall|d: Card| d != c ==> final(self).count(d) == old(self).count(d),
    {
        let i = c.slot();
        let v = self.slots[i];
        self.slots[i] = v - n;
        proof {
            assert forall|d: Card| d != c implies self.count(d) == old(self).count(d) by {
                lemma_slot_roundtrip(d);
                lemma_slot_roundtrip(c);
            }
        }
    }
}

impl Card {
    /// Counts how many copies of each card a sequence of cards holds.
    pub fn count(cards: Vec<Card>) -> (r: CardCounts)
        ensures
            forall|c: Card| r.count(c) == occurrences(cards@, c),
    {
        broadcast use vstd::seq_lib::group_to_multiset_ensures, vstd::multiset::group_multiset_axioms;
        let mut counts = CardCounts::new();
        let mut i: usize = 0;
        while i < cards.len()
            invariant
                i <= cards.len(),
                forall|c: Card| counts.count(c) == occurrences(cards@.subrange(0, i as int), c),
                forall|c: Card| counts.count(c) <= i,
            decreases cards.len() - i,
        {
            let card = cards[i];
            proof {
                let prefix = cards@.subrange(0, i as int);
                assert(cards@.subrange(0, i + 1) =~= prefix.push(card));
                prefix.to_multiset_ensures();
            }
            counts.add(card, 1);
            i += 1;
        }
        assert(cards@.subrange(0, cards.len() as int) =~= cards@);
        counts
    }

    /// Counts how many copies of each card a slice of cards holds.
    pub fn count_slice(cards: &[Card]) -> (r: CardCounts)
        ensures
            forall|c: Card| r.count(c) == occurrences(cards@, c),
    {
        Card::count(vstd::slice::slice_to_vec(cards))
    }

    /// Lists every counted card as many times as it is counted, in slot order.
    pub fn cards(counts: &CardCounts) -> (r: Vec<Card>)
        ensures
            forall|c: Card| occurrences(r@, c) == counts.count(c),
    {
        broadcast use vstd::seq_lib::group_to_multiset_ensures, vstd::multiset::group_multiset_axioms;
        let mut out: Vec<Card> = Vec::new();
        let mut i: usize = 0;
        while i < 55
            invariant
                i <= 55,
                forall|c: Card| card_slot(c) < i ==> occurrences(out@, c) == counts.count(c),
                forall|c: Card| card_slot(c) >= i ==> occurrences(out@, c) == 0,
            decreases 55 - i,
        {
            let card = Card::at_slot(i);
            let n = counts.get(card);
            let mut j: usize = 0;
            while j < n
                invariant
                    j <= n,
                    n == counts.count(card),
                    card_slot(card) == i,
                    occurrences(out@, card) == j,
                    forall|c: Card| card_slot(c) < i ==> occurrences(out@, c) == counts.count(c),
                    forall|c: Card| card_slot(c) > i ==> occurrences(out@, c) == 0,
                decreases n - j,
            {
                let ghost before = out@;
                out.push(card);
                proof {
                    assert(out@ == before.push(card));
                    before.to_multiset_ensures();
                    assert forall|c: Card| card_slot(c) > i implies occurrences(out@, c) == 0 by {
                        assert(c != card);
                        assert(occurrences(before, c) == 0);
                        assert(out@.to_multiset() =~= before.to_multiset().insert(card));
                    }
                }
                j += 1;
            }
            i += 1;
        }
        proof {
            assert forall|c: Card| occurrences(out@, c) == counts.count(c) by {
                lemma_slot_roundtrip(c);
            }
        }
        out
    }
}


/// The suit of the cards at a position of the full deck, in blocks of 13.
pub open spec fn full_deck_suit(block: int) -> Suit {
    if block == 0 {
        Suit::Diamonds
    } else if block == 1 {
        Suit::Clubs
    } else if block == 2 {
        Suit::Hearts
    } else {
        Suit::Spades
    }
}

/// The card at a position of the full deck: each suit from the ace down to
/// the two, in the order diamonds, clubs, hearts, spades, then the small and
/// the big joker.
pub open spec fn full_deck_at(i: int) -> Card {
    if i < 52 {
        Card::Suited { suit: full_deck_suit(i / 13), number: num_at(12 - i % 13) }
    } else if i == 52 {
        Card::SmallJoker
    } else {
        Card::BigJoker
    }
}

/// One full deck of 54 cards.
pub open spec fn full_deck() -> Seq<Card> {
    Seq::new(54, |i: int| full_deck_at(i))
}

/// The 54 cards of one deck, in a fixed order.
#[allow(non_snake_case)]
pub fn FULL_DECK() -> (r: Vec<Card>)
    ensures
        r@ == full_deck(),
{
    let mut v: Vec<Card> = Vec::new();
    v.push(Card::Suited { suit: Suit::Diamonds, number: Number::Ace });
    v.push(Card::Suited { suit: Suit::Diamonds, number: Number::King });
    v.push(Card::Suited { suit: Suit::Diamonds, number: Number::Queen });
    v.push(Card::Suited { suit: Suit::Diamonds, number: Number::Jack });
    v.push(Card::Suited { suit: Suit::Diamonds, number: Number::Ten });
    v.push(Card::Suited { suit: Suit::Diamonds, number: Number::Nine });
    v.push(Card::Suited { suit: Suit::Diamonds, number: Number::Eight });
    v.push(Card::Suited { suit: Suit::Diamonds, number: Number::Seven });
    v.push(Card::Suited { suit: Suit::Diamonds, number: Number::Six });
    v.push(Card::Suited { suit: Suit::Diamonds, number: Number::Five });
    v.push(Card::Suited { suit: Suit::Diamonds, number: Number::Four });
    v.push(Card::Suited { suit: Suit::Diamonds, number: Number::Three });
    v.push(Card::Suited { suit: Suit::Diamonds, number: Number::Two });
    v.push(Card::Suited { suit: Suit::Clubs, number: Number::Ace });
    v.push(Card::Suited { suit: Suit::Clubs, number: Number::King });
    v.push(Card::Suited { suit: Suit::Clubs, number: Number::Queen });
    v.push(Card::Suited { suit: Suit::Clubs, number: Number::Jack });
    v.push(Card::Suited { suit: Suit::Clubs, number: Number::Ten });
    v.push(Card::Suited { suit: Suit::Clubs, number: Number::Nine });
    v.push(Card::Suited { suit: Suit::Clubs, number: Number::Eight });
    v.push(Card::Suited { suit: Suit::Clubs, number: Number::Seven });
    v.push(Card::Suited { suit: Suit::Clubs, number: Number::Six });
    v.push(Card::Suited { suit: Suit::Clubs, number: Number::Five });
    v.push(Card::Suited { suit: Suit::Clubs, number: Number::Four });
    v.push(Card::Suited { suit: Suit::Clubs, number: Number::Three });
    v.push(Card::Suited { suit: Suit::Clubs, number: Number::Two });
    v.push(Card::Suited { suit: Suit::Hearts, number: Number::Ace });
    v.push(Card::Suited { suit: Suit::Hearts, number: Number::King });
    v.push(Card::Suited { suit: Suit::Hearts, number: Number::Queen });
    v.push(Card::Suited { suit: Suit::Hearts, number: Number::Jack });
    v.push(Card::Suited { suit: Suit::Hearts, number: Number::Ten });
    v.push(Card::Suited { suit: Suit::Hearts, number: Number::Nine });
    v.push(Card::Suited { suit: Suit::Hearts, number: Number::Eight });
    v.push(Card::Suited { suit: Suit::Hearts, number: Number::Seven });
    v.push(Card::Suited { suit: Suit::Hearts, number: Number::Six });
    v.push(Card::Suited { suit: Suit::Hearts, number: Number::Five });
    v.push(Card::Suited { suit: Suit::Hearts, number: Number::Four });
    v.push(Card::Suited { suit: Suit::Hearts, number: Number::Three });
    v.push(Card::Suited { suit: Suit::Hearts, number: Number::Two });
    v.push(Card::Suited { suit: Suit::Spades, number: Number::Ace });
    v.push(Card::Suited { suit: Suit::Spades, number: Number::King });
    v.push(Card::Suited { suit: Suit::Spades, number: Number::Queen });
    v.push(Card::Suited { suit: Suit::Spades, number: Number::Jack });
    v.push(Card::Suited { suit: Suit::Spades, number: Number::Ten });
    v.push(Card::Suited { suit: Suit::Spades, number: Number::Nine });
    v.push(Card::Suited { suit: Suit::Spades, number: Number::Eight });
    v.push(Card::Suited { suit: Suit::Spades, number: Number::Seven });
    v.push(Card::Suited { suit: Suit::Spades, number: Number::Six });
    v.push(Card::Suited { suit: Suit::Spades, number: Number::Five });
    v.push(Card::Suited { suit: Suit::Spades, number: Number::Four });
    v.push(Card::Suited { suit: Suit::Spades, number: Number::Three });
    v.push(Card::Suited { suit: Suit::Spades, number: Number::Two });
    v.push(Card::SmallJoker);
    v.push(Card::BigJoker);
    assert(v@ =~= full_deck());
    v
}

/// The four suits, in the order spades, hearts, diamonds, clubs.
#[allow(non_snake_case)]
pub fn ALL_SUITS() -> (r: Vec<Suit>)
    ensures
        r@ == seq![Suit::Spades, Suit::Hearts, Suit::Diamonds, Suit::Clubs],
{
    let mut v: Vec<Suit> = Vec::new();
    v.push(Suit::Spades);
    v.push(Suit::Hearts);
    v.push(Suit::Diamonds);
    v.push(Suit::Clubs);
    assert(v@ =~= seq![Suit::Spades, Suit::Hearts, Suit::Diamonds, Suit::Clubs]);
    v
}


/// The short name of a card: its number and suit symbol, `LJ` and `HJ` for
/// the jokers, `[]` for a hidden card.
pub open spec fn card_label(c: Card) -> Seq<char> {
    match c {
        Card::Suited { suit, number } => number_text(number).push(suit_symbol(suit)),
        Card::SmallJoker => seq!['L', 'J'],
        Card::BigJoker => seq!['H', 'J'],
        Card::Unknown => seq!['[', ']'],
    }
}

/// Writes a text followed by one character, with `std::format!`, which
/// writes its arguments one after the other.
#[verifier::external_body]
pub(crate) fn text_then_char(text: &str, symbol: char) -> (r: String)
    ensures
        r@ == text@.push(symbol),
{
    format!("{}{}", text, symbol)
}

impl Card {
    /// The short name of the card, such as `4♡` or `LJ`.
    pub fn label(self) -> (r: String)
        ensures
            r@ == card_label(self),
    {
        proof {
            reveal_strlit("LJ");
            reveal_strlit("HJ");
            reveal_strlit("[]");
        }
        match self {
            Card::Suited { suit, number } => text_then_char(number.as_str(), suit.as_char()),
            Card::SmallJoker => "LJ".to_owned(),
            Card::BigJoker => "HJ".to_owned(),
            Card::Unknown => "[]".to_owned(),
        }
    }
}

} // verus!
