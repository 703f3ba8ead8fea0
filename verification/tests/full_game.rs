use shengji_mechanics::deck::Deck;
use shengji_mechanics::game_state::{DrawPhase, InitializePhase};
use shengji_mechanics::settings::{FriendSelection, GameMode, GameModeSettings};
use shengji_mechanics::types::cards::{
    C_10, C_2, C_3, C_4, C_5, C_6, C_7, C_8, C_9, C_A, C_J, C_K, C_Q, D_10, D_2, D_3, D_4, D_5, D_6, D_7, D_8, D_9, D_A, D_J, D_K, D_Q, H_10, H_2, H_3, H_4, H_5, H_6, H_7, H_8, H_9, H_A, H_J, H_K, H_Q, S_10, S_2, S_3, S_4, S_5, S_6, S_7, S_8, S_9, S_A, S_J, S_K, S_Q,
};
use shengji_mechanics::types::{Card, Number, PlayerID, Rank};

#[test]
fn test_full_game_play() {
    let mut init = InitializePhase::new();

    init.propagated_mut().set_game_mode(GameModeSettings::FindingFriends { num_friends: None })
        .unwrap();
    let p1 = init.propagated_mut().add_player("p1".into()).unwrap().0;
    let p2 = init.propagated_mut().add_player("p2".into()).unwrap().0;
    let p3 = init.propagated_mut().add_player("p3".into()).unwrap().0;
    let p4 = init.propagated_mut().add_player("p4".into()).unwrap().0;
    let p5 = init.propagated_mut().add_player("p5".into()).unwrap().0;
    let p6 = init.propagated_mut().add_player("p6".into()).unwrap().0;

    init.propagated_mut().set_landlord(Some(p2)).unwrap();
    init.propagated_mut().set_rank(p2, Number::Seven).unwrap();

    init.start(PlayerID(1)).unwrap();

    let p1_hand = vec![
        Card::SmallJoker,
        D_7(),
        D_7(),
        H_7(),
        H_K(),
        H_9(),
        H_9(),
        H_4(),
        H_3(),
        S_A(),
        S_Q(),
        S_Q(),
        S_9(),
        S_9(),
        S_8(),
        S_5(),
        D_K(),
        D_8(),
        D_6(),
        D_5(),
        D_4(),
        C_K(),
        C_K(),
        C_J(),
        C_9(),
        C_8(),
    ];
    let p2_hand = vec![
        Card::BigJoker,
        Card::BigJoker,
        C_7(),
        C_7(),
        S_7(),
        H_K(),
        H_K(),
        H_6(),
        H_4(),
        H_3(),
        S_K(),
        S_J(),
        S_4(),
        S_3(),
        S_2(),
        D_K(),
        D_10(),
        D_4(),
        D_4(),
        D_2(),
        D_2(),
        C_K(),
        C_9(),
        C_5(),
        C_4(),
        C_3(),
    ];
    let p3_hand = vec![
        Card::SmallJoker,
        S_7(),
        H_A(),
        H_10(),
        H_10(),
        H_8(),
        H_8(),
        H_5(),
        H_5(),
        H_2(),
        S_10(),
        S_8(),
        S_5(),
        S_3(),
        D_A(),
        D_J(),
        D_8(),
        D_6(),
        D_5(),
        C_A(),
        C_J(),
        C_10(),
        C_6(),
        C_5(),
        C_5(),
        C_2(),
    ];
    let p4_hand = vec![
        H_7(), S_7(), H_Q(), H_Q(), H_J(), H_J(), H_8(), S_K(), S_J(), S_10(), S_10(), S_6(), S_2(), D_Q(), D_8(), D_5(), D_3(),
        D_2(), C_A(), C_Q(), C_J(), C_9(), C_8(), C_6(), C_2(), C_2(),
    ];
    let p5_hand = vec![
        Card::SmallJoker,
        D_7(),
        H_A(),
        H_9(),
        H_6(),
        H_3(),
        H_2(),
        H_2(),
        S_K(),
        S_6(),
        S_6(),
        S_5(),
        S_4(),
        S_2(),
        D_Q(),
        D_J(),
        D_J(),
        D_10(),
        D_9(),
        D_9(),
        D_3(),
        D_3(),
        C_Q(),
        C_10(),
        C_3(),
        C_3(),
    ];
    let p6_hand = vec![
        Card::BigJoker,
        H_7(),
        H_A(),
        H_Q(),
        H_10(),
        H_6(),
        H_5(),
        H_4(),
        S_A(),
        S_A(),
        S_Q(),
        S_J(),
        S_8(),
        S_4(),
        S_3(),
        D_A(),
        D_A(),
        D_K(),
        D_Q(),
        D_10(),
        D_9(),
        C_A(),
        C_8(),
        C_6(),
        C_4(),
        C_4(),
    ];

    assert_eq!(p1_hand.len(), 26);
    assert_eq!(p2_hand.len(), 26);
    assert_eq!(p3_hand.len(), 26);
    assert_eq!(p4_hand.len(), 26);
    assert_eq!(p5_hand.len(), 26);
    assert_eq!(p6_hand.len(), 26);

    let mut deck = vec![];
    for i in 0..26 {
        deck.push(p1_hand[i]);
        deck.push(p2_hand[i]);
        deck.push(p3_hand[i]);
        deck.push(p4_hand[i]);
        deck.push(p5_hand[i]);
        deck.push(p6_hand[i]);
    }
    deck.reverse();
    let mut draw = DrawPhase::new(
        init.propagated().clone(),
        0,
        deck,
        vec![C_7(), S_9(), D_6(), D_J(), C_Q(), C_10()],
        3,
        GameMode::FindingFriends { num_friends: 2, friends: Vec::new() },
        Some(Rank::Number(Number::Seven)),
        vec![Deck::default(); 3],
        Vec::new(),
    );

    for _ in 0..26 {
        draw.draw_card(p1).unwrap();
        draw.draw_card(p2).unwrap();
        draw.draw_card(p3).unwrap();
        draw.draw_card(p4).unwrap();
        draw.draw_card(p5).unwrap();
        draw.draw_card(p6).unwrap();
    }


    assert!(draw.bid(p1, D_7(), 2));

    let mut exchange = draw.advance(p2).unwrap();
    let friends = vec![
        FriendSelection {
            card: C_K(),
            initial_skip: 0,
        },
        FriendSelection {
            card: H_K(),
            initial_skip: 0,
        },
    ];
    exchange.set_friends(p2, friends).unwrap();
    let mut play = exchange.advance(p2).unwrap();

    assert_eq!(play.landlords_team().len(), 1);

    if let GameMode::FindingFriends {
        num_friends,
        friends: _,
    } = play.game_mode()
    {
        assert_eq!(*num_friends, 2);
    }

    play.play_cards(p2, &[H_K(), H_K()]).unwrap();
    play.play_cards(p3, &[H_8(), H_8()]).unwrap();
    play.play_cards(p4, &[H_J(), H_J()]).unwrap();
    play.play_cards(p5, &[H_2(), H_2()]).unwrap();
    play.play_cards(p6, &[H_4(), H_5()]).unwrap();
    play.play_cards(p1, &[H_9(), H_9()]).unwrap();
    play.finish_trick().unwrap();
    assert_eq!(play.landlords_team().len(), 1);
    if let GameMode::FindingFriends {
        num_friends,
        friends: _,
    } = play.game_mode()
    {
        assert_eq!(*num_friends, 2);
    }

    play.play_cards(p2, &[C_3()]).unwrap();
    play.play_cards(p3, &[C_6()]).unwrap();
    play.play_cards(p4, &[C_6()]).unwrap();
    play.play_cards(p5, &[C_10()]).unwrap();
    play.play_cards(p6, &[C_6()]).unwrap();
    play.play_cards(p1, &[C_K()]).unwrap();
    play.finish_trick().unwrap();

    assert_eq!(play.landlords_team().len(), 2);
    if let GameMode::FindingFriends {
        num_friends,
        friends: _,
    } = play.game_mode()
    {
        assert_eq!(*num_friends, 2);
    }

    play.play_cards(p1, &[S_A()]).unwrap();
    play.play_cards(p2, &[S_2()]).unwrap();
    play.play_cards(p3, &[S_3()]).unwrap();
    play.play_cards(p4, &[S_2()]).unwrap();
    play.play_cards(p5, &[S_2()]).unwrap();
    play.play_cards(p6, &[S_3()]).unwrap();
    play.finish_trick().unwrap();
    assert_eq!(play.landlords_team().len(), 2);
    if let GameMode::FindingFriends {
        num_friends,
        friends: _,
    } = play.game_mode()
    {
        assert_eq!(*num_friends, 2);
    }

    play.play_cards(p1, &[S_Q(), S_Q()]).unwrap();
    play.play_cards(p2, &[S_3(), S_4()]).unwrap();
    play.play_cards(p3, &[S_5(), S_8()]).unwrap();
    play.play_cards(p4, &[S_10(), S_10()]).unwrap();
    play.play_cards(p5, &[S_6(), S_6()]).unwrap();
    play.play_cards(p6, &[S_A(), S_A()]).unwrap();
    play.finish_trick().unwrap();

    assert_eq!(play.landlords_team().len(), 2);
    if let GameMode::FindingFriends {
        num_friends,
        friends: _,
    } = play.game_mode()
    {
        assert_eq!(*num_friends, 2);
    }

    play.play_cards(p6, &[Card::BigJoker]).unwrap();
    play.play_cards(p1, &[D_4()]).unwrap();
    play.play_cards(p2, &[S_7()]).unwrap();
    play.play_cards(p3, &[D_5()]).unwrap();
    play.play_cards(p4, &[D_5()]).unwrap();
    play.play_cards(p5, &[D_10()]).unwrap();
    play.finish_trick().unwrap();

    assert_eq!(play.landlords_team().len(), 2);
    if let GameMode::FindingFriends {
        num_friends,
        friends: _,
    } = play.game_mode()
    {
        assert_eq!(*num_friends, 2);
    }

    play.play_cards(p6, &[D_A(), D_A()]).unwrap();
    play.play_cards(p1, &[D_7(), D_7()]).unwrap();
    play.play_cards(p2, &[D_2(), D_2()]).unwrap();
    play.play_cards(p3, &[D_6(), D_8()]).unwrap();
    play.play_cards(p4, &[D_2(), D_3()]).unwrap();
    play.play_cards(p5, &[D_3(), D_3()]).unwrap();
    play.finish_trick().unwrap();

    assert_eq!(play.landlords_team().len(), 2);
    if let GameMode::FindingFriends {
        num_friends,
        friends: _,
    } = play.game_mode()
    {
        assert_eq!(*num_friends, 2);
    }

    play.play_cards(p1, &[S_9(), S_9()]).unwrap();
    play.play_cards(p2, &[S_J(), S_K()]).unwrap();
    play.play_cards(p3, &[S_10(), H_2()]).unwrap();
    play.play_cards(p4, &[S_6(), S_J()]).unwrap();
    play.play_cards(p5, &[S_4(), S_5()]).unwrap();
    play.play_cards(p6, &[S_4(), S_8()]).unwrap();
    play.finish_trick().unwrap();

    assert_eq!(play.landlords_team().len(), 2);
    if let GameMode::FindingFriends {
        num_friends,
        friends: _,
    } = play.game_mode()
    {
        assert_eq!(*num_friends, 2);
    }

    play.play_cards(p1, &[S_5()]).unwrap();
    play.play_cards(p2, &[D_10()]).unwrap();
    play.play_cards(p3, &[C_2()]).unwrap();
    play.play_cards(p4, &[S_K()]).unwrap();
    play.play_cards(p5, &[S_K()]).unwrap();
    play.play_cards(p6, &[S_J()]).unwrap();
    play.finish_trick().unwrap();
    assert_eq!(play.landlords_team().len(), 2);
    if let GameMode::FindingFriends {
        num_friends,
        friends: _,
    } = play.game_mode()
    {
        assert_eq!(*num_friends, 2);
    }

    play.play_cards(p2, &[Card::BigJoker, Card::BigJoker])
        .unwrap();
    play.play_cards(p3, &[D_J(), D_A()]).unwrap();
    play.play_cards(p4, &[D_8(), D_Q()]).unwrap();
    play.play_cards(p5, &[D_9(), D_9()]).unwrap();
    play.play_cards(p6, &[D_9(), D_10()]).unwrap();
    play.play_cards(p1, &[D_5(), D_K()]).unwrap();
    play.finish_trick().unwrap();
    assert_eq!(play.landlords_team().len(), 2);
    if let GameMode::FindingFriends {
        num_friends,
        friends: _,
    } = play.game_mode()
    {
        assert_eq!(*num_friends, 2);
    }
    play.play_cards(p2, &[C_7(), C_7()]).unwrap();
    play.play_cards(p3, &[S_7(), Card::SmallJoker]).unwrap();
    play.play_cards(p4, &[S_7(), H_7()]).unwrap();
    play.play_cards(p5, &[D_J(), D_J()]).unwrap();
    play.play_cards(p6, &[D_Q(), D_K()]).unwrap();
    play.play_cards(p1, &[D_6(), D_8()]).unwrap();
    play.finish_trick().unwrap();
    assert_eq!(play.landlords_team().len(), 2);
    if let GameMode::FindingFriends {
        num_friends,
        friends: _,
    } = play.game_mode()
    {
        assert_eq!(*num_friends, 2);
    }
    play.play_cards(p2, &[D_4(), D_4()]).unwrap();
    play.play_cards(p3, &[C_10(), C_J()]).unwrap();
    play.play_cards(p4, &[C_8(), C_9()]).unwrap();
    play.play_cards(p5, &[D_Q(), D_7()]).unwrap();
    play.play_cards(p6, &[C_8(), H_7()]).unwrap();
    play.play_cards(p1, &[H_7(), Card::SmallJoker]).unwrap();
    play.finish_trick().unwrap();
    assert_eq!(play.landlords_team().len(), 2);
    if let GameMode::FindingFriends {
        num_friends,
        friends: _,
    } = play.game_mode()
    {
        assert_eq!(*num_friends, 2);
    }
    play.play_cards(p2, &[H_3()]).unwrap();
    play.play_cards(p3, &[H_A()]).unwrap();
    play.play_cards(p4, &[H_8()]).unwrap();
    play.play_cards(p5, &[H_3()]).unwrap();
    play.play_cards(p6, &[H_6()]).unwrap();
    play.play_cards(p1, &[H_3()]).unwrap();
    play.finish_trick().unwrap();
    assert_eq!(play.landlords_team().len(), 2);
    if let GameMode::FindingFriends {
        num_friends,
        friends: _,
    } = play.game_mode()
    {
        assert_eq!(*num_friends, 2);
    }

    play.play_cards(p3, &[H_10(), H_10()]).unwrap();
    play.play_cards(p4, &[H_Q(), H_Q()]).unwrap();
    play.play_cards(p5, &[H_6(), H_9()]).unwrap();
    play.play_cards(p6, &[H_10(), H_Q()]).unwrap();
    play.play_cards(p1, &[H_4(), H_K()]).unwrap();
    play.play_cards(p2, &[H_4(), H_6()]).unwrap();
    play.finish_trick().unwrap();
    assert_eq!(play.landlords_team().len(), 2);
    if let GameMode::FindingFriends {
        num_friends,
        friends: _,
    } = play.game_mode()
    {
        assert_eq!(*num_friends, 2);
    }

    play.play_cards(p4, &[C_2()]).unwrap();
    play.play_cards(p5, &[C_3()]).unwrap();
    play.play_cards(p6, &[C_4()]).unwrap();
    play.play_cards(p1, &[C_K()]).unwrap();
    play.play_cards(p2, &[C_K()]).unwrap();
    play.play_cards(p3, &[C_5()]).unwrap();
    play.finish_trick().unwrap();
    assert_eq!(play.landlords_team().len(), 2);
    if let GameMode::FindingFriends {
        num_friends,
        friends: _,
    } = play.game_mode()
    {
        assert_eq!(*num_friends, 2);
    }

    play.play_cards(p1, &[S_8()]).unwrap();
    play.play_cards(p2, &[C_4()]).unwrap();
    play.play_cards(p3, &[C_A()]).unwrap();
    play.play_cards(p4, &[C_A()]).unwrap();
    play.play_cards(p5, &[C_3()]).unwrap();
    play.play_cards(p6, &[S_Q()]).unwrap();
    play.finish_trick().unwrap();
    assert_eq!(play.landlords_team().len(), 2);
    if let GameMode::FindingFriends {
        num_friends,
        friends: _,
    } = play.game_mode()
    {
        assert_eq!(*num_friends, 2);
    }
    play.play_cards(p6, &[C_4()]).unwrap();
    play.play_cards(p1, &[C_8()]).unwrap();
    play.play_cards(p2, &[C_9()]).unwrap();
    play.play_cards(p3, &[C_5()]).unwrap();
    play.play_cards(p4, &[C_2()]).unwrap();
    play.play_cards(p5, &[C_Q()]).unwrap();
    play.finish_trick().unwrap();
    assert_eq!(play.landlords_team().len(), 2);
    if let GameMode::FindingFriends {
        num_friends,
        friends: _,
    } = play.game_mode()
    {
        assert_eq!(*num_friends, 2);
    }

    play.play_cards(p5, &[H_A()]).unwrap();
    play.play_cards(p6, &[H_A()]).unwrap();
    play.play_cards(p1, &[C_9()]).unwrap();
    play.play_cards(p2, &[C_5()]).unwrap();
    play.play_cards(p3, &[H_5()]).unwrap();
    play.play_cards(p4, &[C_J()]).unwrap();
    play.finish_trick().unwrap();
    assert_eq!(play.landlords_team().len(), 2);
    if let GameMode::FindingFriends {
        num_friends,
        friends: _,
    } = play.game_mode()
    {
        assert_eq!(*num_friends, 2);
    }
    play.play_cards(p5, &[Card::SmallJoker]).unwrap();
    play.play_cards(p6, &[C_A()]).unwrap();
    play.play_cards(p1, &[C_J()]).unwrap();
    play.play_cards(p2, &[D_K()]).unwrap();
    play.play_cards(p3, &[H_5()]).unwrap();
    play.play_cards(p4, &[C_Q()]).unwrap();
    play.finish_trick().unwrap();
    assert_eq!(play.landlords_team().len(), 2);
    if let GameMode::FindingFriends {
        num_friends,
        friends: _,
    } = play.game_mode()
    {
        assert_eq!(*num_friends, 2);
    }
    if let Ok((phase, _, _msgs)) = play.finish_game() {
        assert_eq!(phase.propagated().landlord(), Some(p3));
    };
}
