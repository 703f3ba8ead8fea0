use shengji_mechanics::types::cards;
use shengji_mechanics::types::{Card, CardCounts, EffectiveSuit, Number, Rank, Suit, Trump, FULL_DECK};

#[test]
fn test_char_roundtrip() {
    for card in FULL_DECK().iter() {
        assert_eq!(*card, Card::from_char(card.as_char()).unwrap());
    }
}

#[test]
fn test_deck_completeness() {
    assert_eq!(
        "🃁🃎🃍🃋🃊🃉🃈🃇🃆🃅🃄🃃🃂🃑🃞🃝🃛🃚🃙🃘🃗🃖🃕🃔🃓🃒🂱🂾🂽🂻🂺🂹🂸🂷🂶🂵🂴🂳🂲🂡🂮🂭🂫🂪🂩🂨🂧🂦🂥🂤🂣🂢🃟🃏",
        FULL_DECK()
            .iter()
            .map(|card| card.as_char())
            .collect::<String>()
    );
}

#[test]
fn test_ordering() {
    let mut hand = vec![
        cards::H_6(),
        cards::H_5(),
        cards::H_4(),
        cards::S_3(),
        cards::S_2(),
        cards::C_4(),
        cards::H_2(),
        cards::D_3(),
        Card::SmallJoker,
        Card::BigJoker,
    ];
    let trump = Trump::Standard {
        number: Number::Two,
        suit: Suit::Spades,
    };
    hand.sort_by(|a, b| trump.compare(*a, *b));
    assert_eq!(
        hand.iter().map(|c| c.label()).collect::<String>(),
        "4♡5♡6♡4♧3♢3♤2♡2♤LJHJ"
    );
}

#[test]
fn test_adjacent() {
    let trump = Trump::Standard {
        number: Number::Four,
        suit: Suit::Spades,
    };

    let s = |c| trump.successor(c);
    assert_eq!(s(cards::S_3()), vec![cards::S_5()]);
    assert_eq!(s(cards::S_4()), vec![Card::SmallJoker]);
    assert!(s(cards::H_4()).contains(&cards::S_4()));
    assert!(s(cards::S_A()).contains(&cards::H_4()));
    assert!(s(cards::H_A()).is_empty());

    let no_trump = Trump::NoTrump {
        number: Number::Four,
    };
    let s = |c| no_trump.successor(c);
    assert_eq!(s(cards::S_3()), vec![cards::S_5()]);
    assert_eq!(s(cards::S_4()), vec![Card::SmallJoker]);
    assert_eq!(s(cards::H_4()), vec![Card::SmallJoker]);
    assert!(s(cards::S_A()).is_empty());
    assert!(s(cards::H_A()).is_empty());

    let trump_ace = Trump::Standard {
        number: Number::Ace,
        suit: Suit::Spades,
    };
    let s = |c| trump_ace.successor(c);
    assert_eq!(s(cards::S_3()), vec![cards::S_4()]);
    assert_eq!(s(cards::S_A()), vec![Card::SmallJoker]);
    assert_eq!(s(cards::H_A()), vec![cards::S_A()]);
    assert!(s(cards::S_K()).contains(&cards::H_A()));
    assert!(s(cards::H_K()).is_empty());

    let no_trump_ace = Trump::NoTrump {
        number: Number::Ace,
    };
    let s = |c| no_trump_ace.successor(c);
    assert_eq!(s(cards::S_3()), vec![cards::S_4()]);
    assert_eq!(s(cards::S_A()), vec![Card::SmallJoker]);
    assert_eq!(s(cards::H_A()), vec![Card::SmallJoker]);
    assert!(s(cards::S_K()).is_empty());
    assert!(s(cards::H_K()).is_empty());
}

#[test]
fn card_labels() {
    assert_eq!(cards::H_10().label(), "10♡");
    assert_eq!(cards::S_A().label(), "A♤");
    assert_eq!(Card::SmallJoker.label(), "LJ");
    assert_eq!(Card::BigJoker.label(), "HJ");
}

#[test]
fn card_char_unknown_roundtrip() {
    assert_eq!(Card::from_char(Card::Unknown.as_char()), Some(Card::Unknown));
    assert_eq!(Card::from_char('x'), None);
}

#[test]
fn number_string_roundtrip() {
    for i in 0..13u8 {
        let n = Number::from_index(i);
        assert_eq!(Number::from_str(n.as_str()), Some(n));
    }
    assert_eq!(Number::from_str("1"), None);
    assert_eq!(Number::Two.successor(), Some(Number::Three));
    assert_eq!(Number::Ace.successor(), None);
    assert_eq!(Number::Two.predecessor(), None);
    assert_eq!(Number::Ten.points(), Some(10));
    assert_eq!(Number::King.points(), Some(10));
    assert_eq!(Number::Five.points(), Some(5));
    assert_eq!(Number::Six.points(), None);
}

#[test]
fn rank_successor_reaches_no_trump() {
    assert_eq!(Rank::Number(Number::King).successor(), Some(Rank::Number(Number::Ace)));
    assert_eq!(Rank::Number(Number::Ace).successor(), Some(Rank::NoTrump));
    assert_eq!(Rank::NoTrump.successor(), None);
}

#[test]
fn effective_suits() {
    let trump = Trump::Standard {
        number: Number::Four,
        suit: Suit::Spades,
    };
    assert_eq!(trump.effective_suit(cards::H_4()), EffectiveSuit::Trump);
    assert_eq!(trump.effective_suit(cards::S_3()), EffectiveSuit::Trump);
    assert_eq!(trump.effective_suit(cards::H_3()), EffectiveSuit::Hearts);
    assert_eq!(trump.effective_suit(Card::BigJoker), EffectiveSuit::Trump);
    let nt = Trump::NoTrump { number: Number::Four };
    assert_eq!(nt.effective_suit(cards::S_3()), EffectiveSuit::Spades);
    assert_eq!(nt.effective_suit(cards::S_4()), EffectiveSuit::Trump);
}

#[test]
fn compare_is_antisymmetric_on_samples() {
    let trump = Trump::Standard {
        number: Number::Four,
        suit: Suit::Spades,
    };
    let deck = FULL_DECK();
    for a in deck.iter() {
        for b in deck.iter() {
            assert_eq!(trump.compare(*a, *b), trump.compare(*b, *a).reverse());
            assert_eq!(trump.compare(*a, *b) == std::cmp::Ordering::Equal, a == b);
        }
    }
}

#[test]
fn card_counts_roundtrip() {
    let cards = vec![cards::S_2(), cards::S_2(), Card::BigJoker, cards::H_5()];
    let counts = Card::count(cards.clone());
    assert_eq!(counts.get(cards::S_2()), 2);
    assert_eq!(counts.get(Card::BigJoker), 1);
    assert_eq!(counts.get(cards::H_6()), 0);
    let mut back = Card::cards(&counts);
    let mut expected = cards;
    back.sort_by_key(|c| c.as_char());
    expected.sort_by_key(|c| c.as_char());
    assert_eq!(back, expected);

    let mut c = CardCounts::new();
    c.add(cards::D_7(), 3);
    c.remove(cards::D_7(), 1);
    assert_eq!(c.get(cards::D_7()), 2);
}
