use shengji_mechanics::game_state::{GameError, GameState};
use shengji_mechanics::interactive::{Action, InteractiveGame};
use shengji_mechanics::message::MessageVariant;
use shengji_mechanics::settings::KittyBidPolicy;
use shengji_mechanics::types::{Card, PlayerID, FULL_DECK};

fn four_players() -> (InteractiveGame, Vec<PlayerID>) {
    let mut g = InteractiveGame::new();
    let mut ids = vec![];
    for i in 0..4 {
        let (id, _) = g.register(format!("p{}", i)).unwrap();
        ids.push(id);
    }
    (g, ids)
}

fn draw_everything(g: &mut InteractiveGame) {
    loop {
        let next = match g.state() {
            GameState::Draw(d) if !d.done_drawing() => d.next_player().unwrap(),
            _ => break,
        };
        g.interact(Action::DrawCard, next).unwrap();
    }
}

fn hand_of(g: &InteractiveGame, id: PlayerID) -> Vec<Card> {
    let hands = match g.state() {
        GameState::Play(p) => p.hands(),
        _ => panic!("not playing"),
    };
    let counts = hands.get(id).unwrap();
    let mut out = vec![];
    for c in FULL_DECK() {
        for _ in 0..counts.get(c) {
            out.push(c);
        }
    }
    out
}

/// Starts a game of four with p0 as landlord and plays up to the first
/// trick.
fn game_in_play() -> (InteractiveGame, Vec<PlayerID>) {
    let (mut g, ids) = four_players();
    g.interact(Action::SetLandlord(Some(ids[0])), ids[0]).unwrap();
    let m = g.interact(Action::StartGame, ids[0]).unwrap();
    assert!(matches!(m.as_slice(), [MessageVariant::StartingGame]));
    draw_everything(&mut g);
    let m = g.interact(Action::RevealCard, ids[0]).unwrap();
    assert!(matches!(m.as_slice(), [MessageVariant::RevealedCardFromKitty]));
    assert!(g.interact(Action::PickUpKitty, ids[0]).unwrap().is_empty());
    assert!(matches!(g.state(), GameState::Exchange(_)));
    assert!(g.interact(Action::BeginPlay, ids[0]).unwrap().is_empty());
    assert!(matches!(g.state(), GameState::Play(_)));
    (g, ids)
}

#[test]
fn actions_out_of_phase_are_refused() {
    let (mut g, ids) = four_players();
    assert_eq!(g.interact(Action::DrawCard, ids[0]).unwrap_err(), GameError::WrongPhase);
    assert_eq!(g.interact(Action::EndTrick, ids[0]).unwrap_err(), GameError::WrongPhase);
    assert_eq!(g.interact(Action::Beep, ids[0]).unwrap_err(), GameError::WrongPhase);
    assert_eq!(g.interact(Action::ResetGame, ids[0]).unwrap_err(), GameError::GameNotStarted);
    assert!(matches!(g.state(), GameState::Initialize(_)));
}

#[test]
fn setting_a_rank_is_announced() {
    let (mut g, ids) = four_players();
    let m = g
        .interact(Action::SetRank(shengji_mechanics::types::Number::Five), ids[1])
        .unwrap();
    assert!(matches!(
        m.as_slice(),
        [MessageVariant::SetRank { rank: shengji_mechanics::types::Rank::Number(shengji_mechanics::types::Number::Five) }]
    ));
    let m = g.interact(Action::SetLandlordEmoji(None), ids[1]).unwrap();
    match m.as_slice() {
        [MessageVariant::SetLandlordEmoji { emoji }] => assert_eq!(emoji, "(当庄)"),
        _ => panic!("unexpected messages"),
    }
}

#[test]
fn registering_twice_joins_again() {
    let (mut g, ids) = four_players();
    let (id, msgs) = g.register("p2".to_string()).unwrap();
    assert_eq!(id, ids[2]);
    assert!(matches!(msgs.as_slice(), [MessageVariant::JoinedGameAgain { .. }]));
}

#[test]
fn revealing_with_first_card_policy_bids_the_first_card() {
    let (mut g, ids) = four_players();
    g.interact(Action::SetLandlord(Some(ids[0])), ids[0]).unwrap();
    g.interact(Action::SetKittyBidPolicy(KittyBidPolicy::FirstCard), ids[0]).unwrap();
    g.interact(Action::StartGame, ids[0]).unwrap();
    assert_eq!(g.interact(Action::RevealCard, ids[0]).unwrap_err(), GameError::DeckNotEmpty);
    draw_everything(&mut g);
    g.interact(Action::RevealCard, ids[0]).unwrap();
    assert_eq!(g.interact(Action::RevealCard, ids[0]).unwrap_err(), GameError::NothingToReveal);
}

#[test]
fn beginning_play_needs_the_landlord() {
    let (mut g, ids) = four_players();
    g.interact(Action::SetLandlord(Some(ids[0])), ids[0]).unwrap();
    g.interact(Action::StartGame, ids[0]).unwrap();
    draw_everything(&mut g);
    g.interact(Action::RevealCard, ids[0]).unwrap();
    g.interact(Action::PickUpKitty, ids[0]).unwrap();
    assert_eq!(g.interact(Action::BeginPlay, ids[1]).unwrap_err(), GameError::NotLandlord);
    assert!(matches!(g.state(), GameState::Exchange(_)));
}

#[test]
fn new_game_only_once_over() {
    let (mut g, ids) = game_in_play();
    assert_eq!(g.interact(Action::StartNewGame, ids[0]).unwrap_err(), GameError::GameNotFinished);
    assert!(matches!(g.state(), GameState::Play(_)));
}

#[test]
fn full_game_is_settled() {
    let (mut g, ids) = game_in_play();
    let mut tricks = 0;
    loop {
        let over = match g.state() {
            GameState::Play(p) => p.hands().is_empty() && p.trick().played_cards().is_empty(),
            _ => panic!("left the play"),
        };
        if over {
            break;
        }
        for _ in 0..4 {
            let next = match g.state() {
                GameState::Play(p) => p.next_player().unwrap(),
                _ => unreachable!(),
            };
            let hand = hand_of(&g, next);
            let mut played = false;
            for c in hand {
                if g.interact(Action::PlayCards(vec![c]), next).is_ok() {
                    played = true;
                    break;
                }
            }
            assert!(played);
        }
        let msgs = g.interact(Action::EndTrick, ids[0]).unwrap();
        assert!(matches!(msgs.last(), Some(MessageVariant::TrickWon { .. })));
        tricks += 1;
    }
    assert_eq!(tricks, 25);
    let msgs = g.interact(Action::StartNewGame, ids[0]).unwrap();
    assert!(matches!(msgs.first(), Some(MessageVariant::EndOfGameSummary { .. })));
    assert!(msgs.iter().any(|m| matches!(m, MessageVariant::GameFinished { .. })));
    let next = msgs
        .iter()
        .find_map(|m| match m {
            MessageVariant::NewLandlordForNextGame { landlord } => Some(*landlord),
            _ => None,
        })
        .unwrap();
    let landlord_won = matches!(msgs.first(), Some(MessageVariant::EndOfGameSummary { landlord_won: true, .. }));
    // The next landlord is the next player round the table on the side that won.
    if landlord_won {
        assert_eq!(next, ids[2]);
    } else {
        assert_eq!(next, ids[1]);
    }
    match g.state() {
        GameState::Initialize(init) => {
            assert_eq!(init.propagated().landlord(), Some(next));
        }
        _ => panic!("not back to setting up"),
    }
}

#[test]
fn reset_returns_to_setting_up() {
    let (mut g, ids) = game_in_play();
    let msgs = g.interact(Action::ResetGame, ids[1]).unwrap();
    assert!(matches!(msgs.as_slice(), [MessageVariant::ResettingGame]));
    assert!(matches!(g.state(), GameState::Initialize(_)));
}

#[test]
fn redacting_hides_the_deck_and_kitty() {
    let (mut g, ids) = four_players();
    g.interact(Action::SetLandlord(Some(ids[0])), ids[0]).unwrap();
    g.interact(Action::StartGame, ids[0]).unwrap();
    for _ in 0..4 {
        let next = match g.state() {
            GameState::Draw(d) => d.next_player().unwrap(),
            _ => unreachable!(),
        };
        g.interact(Action::DrawCard, next).unwrap();
    }
    match g.into_state().for_player(ids[0]) {
        GameState::Draw(d) => {
            assert_eq!(d.deck().len(), 96);
            assert!(d.deck().iter().all(|c| *c == Card::Unknown));
            assert_eq!(d.kitty().len(), 8);
            assert!(d.kitty().iter().all(|c| *c == Card::Unknown));
        }
        _ => panic!("not drawing"),
    }
}

#[test]
fn redacting_the_play_hides_other_hands() {
    let (g, ids) = game_in_play();
    match g.into_state().for_player(ids[1]) {
        GameState::Play(p) => {
            let hands = p.hands();
            let mine = hands.get(ids[1]).unwrap();
            assert_eq!(mine.get(Card::Unknown), 0);
            let theirs = hands.get(ids[0]).unwrap();
            assert_eq!(theirs.get(Card::Unknown), 25);
            assert_eq!(theirs.get(Card::BigJoker), 0);
        }
        _ => panic!("not playing"),
    }
}
