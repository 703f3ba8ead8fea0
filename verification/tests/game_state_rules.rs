use shengji_mechanics::game_state::play_phase::{compute_player_level_deltas, LevelSettlement};
use shengji_mechanics::game_state::InitializePhase;
use shengji_mechanics::player::Player;
use shengji_mechanics::settings::{AdvancementPolicy, GameModeSettings};
use shengji_mechanics::types::{Number, PlayerID, Rank};

fn four_players() -> Vec<Player> {
    (0..4)
        .map(|i| Player {
            id: PlayerID(i),
            name: format!("p{}", i + 1),
            level: Rank::Number(Number::Four),
            metalevel: 0,
        })
        .collect()
}

fn settlement(policy: AdvancementPolicy) -> LevelSettlement {
    // Pretend both sides are leveling up somehow.
    LevelSettlement {
        non_landlord_level_bump: 2,
        landlord_level_bump: 2,
        landlord_won: true,
        landlord: PlayerID(0),
        landlord_rank: Rank::Number(Number::Ace),
        advancement_policy: policy,
        max_rank: Rank::NoTrump,
    }
}

#[test]
fn test_player_level_deltas() {
    let team = [PlayerID(0), PlayerID(2)];
    let mut players = four_players();
    let mut players_ = four_players();

    let _ = compute_player_level_deltas(&mut players, &team, settlement(AdvancementPolicy::Unrestricted));
    for p in &players {
        assert_eq!(p.rank(), Rank::Number(Number::Six));
    }

    let _ = compute_player_level_deltas(&mut players_, &team, settlement(AdvancementPolicy::DefendPoints));
    for p in &players_ {
        assert_eq!(p.rank(), Rank::Number(Number::Five));
    }

    // Advance again!
    let _ = compute_player_level_deltas(&mut players_, &team, settlement(AdvancementPolicy::DefendPoints));
    for p in &players_ {
        if p.id == PlayerID(0) || p.id == PlayerID(2) {
            assert_eq!(p.rank(), Rank::Number(Number::Seven));
        } else {
            assert_eq!(p.rank(), Rank::Number(Number::Five));
        }
    }
}

#[test]
fn test_unusual_kitty_sizes() {
    for n_players in 4..10usize {
        for n_decks in 1..n_players {
            for kitty_size in 1..30usize {
                let mut init = InitializePhase::new();
                for i in 0..n_players {
                    init.propagated_mut().add_player(format!("p{}", i + 1)).unwrap();
                }
                init.propagated_mut()
                    .set_game_mode(GameModeSettings::FindingFriends { num_friends: None })
                    .unwrap();
                let p1 = init.propagated().players()[0].id;
                init.propagated_mut().set_num_decks(Some(n_decks)).unwrap();
                if init.propagated_mut().set_kitty_size(Some(kitty_size)).is_ok() {
                    let draw = init.start(p1).unwrap();
                    assert_eq!(draw.deck().len() % n_players, 0);
                    assert_eq!(draw.kitty().len(), kitty_size);
                    assert_eq!(
                        draw.removed_cards().len() + draw.deck().len() + draw.kitty().len(),
                        n_decks * 54
                    );
                }
            }
        }
    }
}

use shengji_mechanics::deck::Deck;
use shengji_mechanics::game_state::DrawPhase;
use shengji_mechanics::settings::{GameMode, KittyTheftPolicy};
use shengji_mechanics::trick::TrickDrawPolicy;
use shengji_mechanics::types::cards::{
    C_10, C_3, C_4, C_5, C_6, C_7, C_8, C_9, C_A, C_J, C_K, C_Q, H_2, S_10, S_2, S_3, S_4, S_5,
    S_6, S_7, S_8, S_9, S_J, S_K, S_Q,
};
use shengji_mechanics::types::Card;

/// A room of four players, set up by `configure`.
fn four_player_room(configure: impl Fn(&mut InitializePhase)) -> (InitializePhase, Vec<PlayerID>) {
    let mut init = InitializePhase::new();
    configure(&mut init);
    let mut ids = Vec::new();
    for i in 0..4 {
        ids.push(init.propagated_mut().add_player(format!("p{}", i + 1)).unwrap().0);
    }
    (init, ids)
}

/// The draw that `start` would begin, but with the given deck, drawn from
/// its end, and the first player to draw.
fn rigged_draw(init: &InitializePhase, deck: Vec<Card>) -> DrawPhase {
    let started = init.start(PlayerID(0)).unwrap();
    DrawPhase::new(
        init.propagated().clone(),
        0,
        deck,
        started.kitty().to_vec(),
        2,
        GameMode::Tractor,
        None,
        vec![Deck::default(), Deck::default()],
        Vec::new(),
    )
}

fn bidding_deck() -> Vec<Card> {
    vec![S_2(), Card::SmallJoker, Card::BigJoker, H_2(), S_2(), Card::SmallJoker, Card::BigJoker, H_2()]
}

#[test]
fn test_bid_sequence() {
    let (init, ids) = four_player_room(|_| {});
    let (p1, p2, p3, p4) = (ids[0], ids[1], ids[2], ids[3]);
    let mut draw = rigged_draw(&init, bidding_deck());
    for _ in 0..2 {
        draw.draw_card(p1).unwrap();
        draw.draw_card(p2).unwrap();
        draw.draw_card(p3).unwrap();
        draw.draw_card(p4).unwrap();
    }

    assert!(draw.bid(p1, H_2(), 1));
    assert!(draw.bid(p1, H_2(), 2));
    assert!(draw.bid(p3, Card::SmallJoker, 2));
    assert!(draw.bid(p2, Card::BigJoker, 2));
    assert!(!draw.bid(p1, H_2(), 2));
}

#[test]
fn test_kitty_stealing_bid_sequence() {
    let (init, ids) = four_player_room(|init| {
        init.propagated_mut().set_kitty_theft_policy(KittyTheftPolicy::AllowKittyTheft).unwrap();
    });
    let (p1, p2, p3, p4) = (ids[0], ids[1], ids[2], ids[3]);
    let mut draw = rigged_draw(&init, bidding_deck());
    for _ in 0..2 {
        draw.draw_card(p1).unwrap();
        draw.draw_card(p2).unwrap();
        draw.draw_card(p3).unwrap();
        draw.draw_card(p4).unwrap();
    }

    assert!(draw.bid(p1, H_2(), 1));
    let mut exchange = draw.advance(p1).unwrap();
    exchange.finalize(p1).unwrap();
    assert!(exchange.bid(p1, H_2(), 2));
    assert!(exchange.bid(p3, Card::SmallJoker, 2));
    exchange.pick_up_cards(p3).unwrap();
    exchange.advance(p1).unwrap_err();
    exchange.finalize(p3).unwrap();
    assert!(exchange.bid(p2, Card::BigJoker, 2));
    exchange.pick_up_cards(p2).unwrap();
    exchange.finalize(p2).unwrap();
    assert!(!exchange.bid(p1, H_2(), 2));
    exchange.advance(p1).unwrap();
}

#[test]
fn test_tuple_protection_case() {
    let (init, ids) = four_player_room(|init| {
        init.propagated_mut().set_trick_draw_policy(TrickDrawPolicy::LongerTuplesProtected).unwrap();
    });
    let (p1, p2, p3, p4) = (ids[0], ids[1], ids[2], ids[3]);

    let p1_hand = vec![S_9(), S_9(), S_10(), S_10(), S_K(), S_3(), S_4(), S_5(), S_7(), S_7(), H_2()];
    let p2_hand = vec![S_3(), S_3(), S_5(), S_5(), S_7(), S_8(), S_J(), S_Q(), C_3(), C_4(), C_5()];
    let p3_hand = vec![S_3(), S_5(), S_10(), S_J(), S_Q(), S_6(), S_8(), S_8(), S_8(), C_6(), C_7()];
    let p4_hand = vec![S_6(), S_6(), S_6(), C_8(), C_9(), C_10(), C_J(), C_Q(), C_K(), C_A(), C_A()];

    let mut deck = vec![];
    for i in 0..11 {
        deck.push(p1_hand[i]);
        deck.push(p2_hand[i]);
        deck.push(p3_hand[i]);
        deck.push(p4_hand[i]);
    }
    deck.reverse();
    let mut draw = rigged_draw(&init, deck);

    for _ in 0..11 {
        draw.draw_card(p1).unwrap();
        draw.draw_card(p2).unwrap();
        draw.draw_card(p3).unwrap();
        draw.draw_card(p4).unwrap();
    }

    assert!(draw.bid(p1, H_2(), 1));

    let exchange = draw.advance(p1).unwrap();
    let mut play = exchange.advance(p1).unwrap();
    play.play_cards(p1, &[S_9(), S_9(), S_10(), S_10(), S_K()]).unwrap();
    play.play_cards(p2, &[S_3(), S_3(), S_5(), S_5(), S_7()]).unwrap();
    play.play_cards(p3, &[S_3(), S_5(), S_10(), S_J(), S_Q()]).unwrap();
    play.play_cards(p4, &[S_6(), S_6(), S_6(), C_8(), C_9()]).unwrap();
}

use shengji_mechanics::game_state::ExchangePhase;
use shengji_mechanics::settings::{FriendSelection, FriendSelectionPolicy};

/// An exchange with `p2` as landlord at the number of `bid`, after `p1`
/// bid it.
fn friends_exchange(friend_selection_policy: FriendSelectionPolicy, bid: Card) -> (PlayerID, ExchangePhase) {
    let (mut init, ids) = four_player_room(|init| {
        init.propagated_mut()
            .set_game_mode(GameModeSettings::FindingFriends { num_friends: None })
            .unwrap();
        init.propagated_mut().set_friend_selection_policy(friend_selection_policy).unwrap();
    });
    let (p1, p2, p3, p4) = (ids[0], ids[1], ids[2], ids[3]);
    init.propagated_mut().set_landlord(Some(p2)).unwrap();
    init.propagated_mut().set_rank(p2, bid.number().unwrap()).unwrap();

    let mut draw = DrawPhase::new(
        init.propagated().clone(),
        1,
        vec![bid, bid, bid, bid],
        init.start(p2).unwrap().kitty().to_vec(),
        2,
        GameMode::FindingFriends { num_friends: 1, friends: Vec::new() },
        Some(Rank::Number(bid.number().unwrap())),
        vec![Deck::default(), Deck::default()],
        Vec::new(),
    );
    draw.draw_card(p2).unwrap();
    draw.draw_card(p3).unwrap();
    draw.draw_card(p4).unwrap();
    draw.draw_card(p1).unwrap();

    assert!(draw.bid(p1, bid, 1));

    (p2, draw.advance(p2).unwrap())
}

#[test]
fn test_set_friends() {
    let test_cases = vec![
        (
            FriendSelectionPolicy::Unrestricted,
            S_7(),
            vec![(C_K(), true), (S_3(), false), (C_3(), true), (C_A(), true)],
        ),
        (
            FriendSelectionPolicy::HighestCardNotAllowed,
            S_7(),
            vec![(C_K(), true), (S_3(), false), (C_3(), true), (C_A(), false)],
        ),
    ];

    for (friend_selection_policy, landlord_level, friends) in test_cases {
        for (friend, ok) in friends {
            let (p2, mut exchange) = friends_exchange(friend_selection_policy, landlord_level);
            assert_eq!(
                exchange
                    .set_friends(p2, vec![FriendSelection { card: friend, initial_skip: 0 }])
                    .is_ok(),
                ok,
                "Expected {:?} to be a {} friend for {:?}",
                friend,
                if ok { "legal" } else { "illegal" },
                friend_selection_policy
            );
        }
    }
}

use shengji_mechanics::message::MessageVariant;
use shengji_mechanics::types::cards::{D_3, D_4, D_5, H_3, H_4, H_5};

#[test]
fn test_landlord_small_team() {
    let mut init = InitializePhase::new();
    init.propagated_mut()
        .set_game_mode(GameModeSettings::FindingFriends { num_friends: Some(3) })
        .unwrap();
    let mut ids = Vec::new();
    for i in 0..8 {
        ids.push(init.propagated_mut().add_player(format!("p{}", i + 1)).unwrap().0);
    }
    let p = ids.clone();
    init.propagated_mut().set_landlord(Some(p[0])).unwrap();
    init.propagated_mut().set_rank(p[0], Number::Seven).unwrap();

    // We need at least two cards per person, since the landlord needs to
    // bid, and the biddable card can't be the friend-selection card.
    let hands = vec![
        vec![S_7(), D_3()],
        vec![D_4(), D_5()],
        vec![C_6(), C_8()],
        vec![C_9(), C_10()],
        vec![C_J(), C_Q()],
        vec![C_K(), C_A()],
        vec![H_2(), H_3()],
        vec![H_4(), H_5()],
    ];
    let mut deck = vec![];
    for i in 0..2 {
        for h in &hands {
            deck.push(h[i]);
        }
    }
    deck.reverse();

    let started = init.start(p[0]).unwrap();
    let mut draw = DrawPhase::new(
        init.propagated().clone(),
        0,
        deck,
        started.kitty().to_vec(),
        4,
        GameMode::FindingFriends { num_friends: 3, friends: Vec::new() },
        Some(Rank::Number(Number::Seven)),
        vec![Deck::default(); 4],
        Vec::new(),
    );
    for _ in 0..2 {
        for id in &p {
            draw.draw_card(*id).unwrap();
        }
    }

    // p1 bids and wins, trump is now Spades and 7s.
    assert!(draw.bid(p[0], S_7(), 1));

    let mut exchange = draw.advance(p[0]).unwrap();
    let friends = vec![
        FriendSelection { card: D_3(), initial_skip: 0 },
        FriendSelection { card: D_4(), initial_skip: 0 },
        FriendSelection { card: D_5(), initial_skip: 0 },
    ];
    exchange.set_friends(p[0], friends).unwrap();
    let mut play = exchange.advance(p[0]).unwrap();
    match play.game_mode() {
        GameMode::FindingFriends { num_friends: 3, .. } => (),
        _ => panic!("Didn't have 3 friends once game was started"),
    }
    assert_eq!(play.landlords_team().to_vec(), vec![p[0]], "Nobody should have joined the team yet");

    // Play the first hand. p2 will join the team.
    for (k, id) in p.iter().enumerate() {
        play.play_cards(*id, &hands[k][..1]).unwrap();
    }
    let msgs = play.finish_trick().unwrap();
    assert_eq!(
        msgs.into_iter()
            .filter(|m| matches!(m, MessageVariant::JoinedTeam { player, already_joined: false } if *player == p[1]))
            .count(),
        1
    );
    assert_eq!(play.landlords_team().to_vec(), vec![p[0], p[1]]);

    // Play the next trick, where the landlord will join the team, and then
    // p2 will join the team (again).
    for (k, id) in p.iter().enumerate() {
        play.play_cards(*id, &hands[k][1..2]).unwrap();
    }
    let msgs = play.finish_trick().unwrap();
    assert_eq!(
        msgs.into_iter()
            .filter(|m| matches!(m, MessageVariant::JoinedTeam { player, already_joined: true } if *player == p[1]))
            .count(),
        1
    );
    assert_eq!(play.landlords_team().to_vec(), vec![p[0], p[1]]);
    match play.game_mode() {
        GameMode::FindingFriends { friends, .. } => {
            assert!(friends.iter().all(|f| f.player_id.is_some()), "all friends lots taken")
        }
        _ => unreachable!(),
    }

    // Finish the game; the landlord goes up 4 levels (3 for keeping the
    // opposing team at 0, and a bonus level).
    let (new_init_phase, _, msgs) = play.finish_game().unwrap();
    assert_eq!(
        msgs.into_iter()
            .filter(|m| match m {
                MessageVariant::BonusLevelEarned => true,
                MessageVariant::RankAdvanced { player, new_rank } if *player == p[0] => {
                    assert_eq!(*new_rank, Rank::Number(Number::Jack));
                    false
                }
                MessageVariant::RankAdvanced { player, new_rank } if *player == p[1] => {
                    assert_eq!(*new_rank, Rank::Number(Number::Six));
                    false
                }
                _ => false,
            })
            .count(),
        1
    );
    assert_eq!(
        new_init_phase.propagated().players().iter().map(|p| p.level).collect::<Vec<Rank>>(),
        vec![
            Rank::Number(Number::Jack),
            Rank::Number(Number::Six),
            Rank::Number(Number::Two),
            Rank::Number(Number::Two),
            Rank::Number(Number::Two),
            Rank::Number(Number::Two),
            Rank::Number(Number::Two),
            Rank::Number(Number::Two)
        ],
        "Check that propagated players have the right new levels"
    );
}
