use shengji_mechanics::describe::{decimal, signed_decimal};
use shengji_mechanics::game_state::{GameError, GameState, InitializePhase};
use shengji_mechanics::message::MessageVariant;
use shengji_mechanics::settings::AdvancementPolicy;
use shengji_mechanics::trick::UnitLike;
use shengji_mechanics::types::{Card, Number, PlayerID, Rank, Suit};

fn unit(t: &[usize]) -> UnitLike {
    UnitLike { adjacent_tuples: t.to_vec() }
}

fn room() -> (GameState, Vec<PlayerID>) {
    let mut init = InitializePhase::new();
    let mut ids = vec![];
    for name in ["ann", "bob"] {
        let (id, _) = init.propagated_mut().add_player(name.to_string()).unwrap();
        ids.push(id);
    }
    (GameState::Initialize(init), ids)
}

#[test]
fn numbers_in_decimal() {
    assert_eq!(decimal(0), "0");
    assert_eq!(decimal(7), "7");
    assert_eq!(decimal(120), "120");
    assert_eq!(signed_decimal(-35), "-35");
    assert_eq!(signed_decimal(isize::MIN), isize::MIN.to_string());
}

#[test]
fn tuple_names() {
    assert_eq!(UnitLike::tuple_description(1), "single");
    assert_eq!(UnitLike::tuple_description(2), "pair");
    assert_eq!(UnitLike::tuple_description(5), "quintuple");
    assert_eq!(UnitLike::tuple_description(6), "6-tuple");
}

#[test]
fn unit_descriptions() {
    assert_eq!(unit(&[2]).description(), "pair");
    assert_eq!(unit(&[2, 2]).description(), "tractor");
    assert_eq!(unit(&[3, 3]).description(), "tractor of triples");
    assert_eq!(unit(&[2, 2, 2]).description(), "3-tractor of pairs");
    assert_eq!(unit(&[3, 2]).description(), "an adjacent triple and a pair");
    assert_eq!(unit(&[2, 3, 3]).description(), "an adjacent triple, triple, and a pair");
}

#[test]
fn several_units_are_tallied() {
    assert_eq!(UnitLike::multi_description(&[unit(&[2])]), "a pair");
    assert_eq!(UnitLike::multi_description(&[unit(&[2]), unit(&[2])]), "2 pair");
    assert_eq!(
        UnitLike::multi_description(&[unit(&[1]), unit(&[2]), unit(&[2, 2]), unit(&[2])]),
        "2 pair, 1 single, 1 tractor"
    );
    assert_eq!(UnitLike::multi_description(&[]), "");
}

#[test]
fn messages_in_words() {
    let (state, ids) = room();
    let (ann, bob) = (ids[0], ids[1]);
    let text = |m: MessageVariant, actor: PlayerID| m.to_string(actor, &state);
    assert_eq!(text(MessageVariant::ResettingGame, ann).unwrap(), "ann reset the game");
    assert_eq!(
        text(MessageVariant::TrickWon { winner: bob, points: 25 }, ann).unwrap(),
        "bob wins the trick and gets 25 points"
    );
    assert_eq!(
        text(MessageVariant::TrickWon { winner: bob, points: 0 }, ann).unwrap(),
        "bob wins the trick, but gets no points :("
    );
    assert_eq!(
        text(MessageVariant::EndOfGameSummary { landlord_won: false, non_landlords_points: 120 }, ann).unwrap(),
        "Landlord team lost, opposing team collected 120 points"
    );
    assert_eq!(
        text(MessageVariant::EndOfGameSummary { landlord_won: true, non_landlords_points: -5 }, ann).unwrap(),
        "Landlord team won, opposing team only collected -5 points"
    );
    assert_eq!(
        text(MessageVariant::RankAdvanced { player: ann, new_rank: Rank::Number(Number::Jack) }, bob).unwrap(),
        "ann has advanced to rank J"
    );
    assert_eq!(
        text(MessageVariant::MadeBid { card: Card::Suited { suit: Suit::Hearts, number: Number::Ten }, count: 2 }, bob).unwrap(),
        "bob bid 2 10\u{2661}"
    );
    assert_eq!(
        text(MessageVariant::PlayedCards { cards: vec![Card::SmallJoker, Card::BigJoker] }, ann).unwrap(),
        "ann played \u{1f0df}\u{1f0cf}"
    );
    assert_eq!(
        text(MessageVariant::AdvancementPolicySet { policy: AdvancementPolicy::DefendPoints }, bob).unwrap(),
        "bob required players to defend on points and A"
    );
    assert_eq!(text(MessageVariant::GameFinished { result: vec![] }, PlayerID(99)).unwrap(), "The game has finished");
}

#[test]
fn messages_naming_strangers_are_refused() {
    let (state, ids) = room();
    assert_eq!(
        MessageVariant::ResettingGame.to_string(PlayerID(99), &state).unwrap_err(),
        GameError::PlayerNotFound
    );
    assert_eq!(
        MessageVariant::NewLandlordForNextGame { landlord: PlayerID(42) }
            .to_string(ids[0], &state)
            .unwrap_err(),
        GameError::PlayerNotFound
    );
}
