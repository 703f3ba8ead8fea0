use shengji_mechanics::game_state::{GameError, InitializePhase};
use shengji_mechanics::settings::GameModeSettings;
use shengji_mechanics::types::{Card, Number, Suit};

fn room(n: usize) -> InitializePhase {
    let mut init = InitializePhase::new();
    for i in 0..n {
        init.propagated_mut()
            .add_player(format!("p{}", i))
            .unwrap();
    }
    init
}

#[test]
fn start_needs_four_players() {
    let init = room(3);
    let id = init.propagated().players()[0].id;
    assert_eq!(init.start(id).unwrap_err(), GameError::NotEnoughPlayers);
}

#[test]
fn tractor_needs_even_players() {
    let init = room(5);
    let id = init.propagated().players()[0].id;
    assert_eq!(init.start(id).unwrap_err(), GameError::OddPlayersForTractor);
}

#[test]
fn default_kitty_for_four_players() {
    let init = room(4);
    let id = init.propagated().players()[0].id;
    let draw = init.start(id).unwrap();
    assert_eq!(draw.kitty().len(), 8);
    assert_eq!(draw.deck().len(), 100);
    assert!(draw.removed_cards().is_empty());
}

#[test]
fn finding_friends_with_five_players() {
    let mut init = room(5);
    init.propagated_mut()
        .set_game_mode(GameModeSettings::FindingFriends { num_friends: None })
        .unwrap();
    let id = init.propagated().players()[0].id;
    let draw = init.start(id).unwrap();
    // Two decks of 54 cards, five players: 108 % 5 = 3, plus one round.
    assert_eq!(draw.kitty().len(), 8);
    assert_eq!(draw.deck().len(), 100);
}

#[test]
fn cards_are_removed_to_fit_the_kitty() {
    let mut init = room(4);
    init.propagated_mut().set_kitty_size(Some(8)).unwrap();
    for i in 4..6 {
        init.propagated_mut()
            .add_player(format!("p{}", i))
            .unwrap();
    }
    let id = init.propagated().players()[0].id;
    let draw = init.start(id).unwrap();
    assert_eq!(draw.kitty().len(), 8);
    assert_eq!(
        draw.removed_cards(),
        &[
            Card::Suited { suit: Suit::Clubs, number: Number::Three },
            Card::Suited { suit: Suit::Diamonds, number: Number::Three },
            Card::Suited { suit: Suit::Hearts, number: Number::Three },
            Card::Suited { suit: Suit::Spades, number: Number::Three },
        ]
    );
    assert_eq!(draw.deck().len(), 150);
}

#[test]
fn drawing_deals_every_card() {
    let init = room(4);
    let id = init.propagated().players()[0].id;
    let mut draw = init.start(id).unwrap();
    let mut turns = 0;
    while !draw.done_drawing() {
        let next = draw.next_player().unwrap();
        draw.draw_card(next).unwrap();
        turns += 1;
    }
    assert_eq!(turns, 100);
    assert!(draw.deck().is_empty());
}
