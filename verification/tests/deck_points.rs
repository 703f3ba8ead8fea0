use shengji_mechanics::deck::Deck;
use shengji_mechanics::types::{Card, Number};

#[test]
fn test_deck_points_calc() {
    let cases = vec![
        (Deck::default(), 54, 100),
        (
            Deck {
                exclude_big_joker: true,
                exclude_small_joker: true,
                ..Default::default()
            },
            52,
            100,
        ),
        (
            Deck {
                min: Number::Five,
                ..Default::default()
            },
            42,
            100,
        ),
        (
            Deck {
                min: Number::Jack,
                ..Default::default()
            },
            18,
            40,
        ),
    ];

    for (deck, cards, points) in cases {
        println!("testing {:?} {:?} {:?}", deck, cards, points);
        assert_eq!(deck.points(), points);
        assert_eq!(deck.len(), cards);
        assert_eq!(deck.cards().len(), cards);
        assert_eq!(
            deck.cards()
                .into_iter()
                .flat_map(|c: Card| c.points())
                .sum::<usize>(),
            points
        );
    }
}

#[test]
fn deck_iterator_matches_cards() {
    let deck = Deck {
        min: Number::Queen,
        exclude_small_joker: true,
        ..Default::default()
    };
    let mut it = deck.iter();
    let mut seen = vec![];
    while let Some(c) = it.next() {
        seen.push(c);
    }
    assert_eq!(seen, deck.cards());
    assert_eq!(seen.len(), 13);
    assert!(deck.includes_card(Card::BigJoker));
    assert!(!deck.includes_card(Card::SmallJoker));
    assert!(!deck.includes_number(Number::Two));
    assert!(deck.includes_number(Number::Ace));
}
