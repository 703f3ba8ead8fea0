use std::collections::HashSet;

use shengji_mechanics::hands::Hands;
use shengji_mechanics::ordered_card::OrderedCard;
use shengji_mechanics::trick::{
    PlayCards, ThrowEvaluationPolicy, Trick, TrickDrawPolicy, TrickEnded, TrickError, TrickFormat,
    TrickUnit, UnitLike,
};
use shengji_mechanics::types::cards::{
    C_10, C_4, C_5, C_6, C_7, C_8, C_A, C_K, D_4, D_A, D_K, H_2, H_3, H_4, H_5, H_7, H_8, H_9,
    H_A, H_K, S_10, S_2, S_3, S_4, S_5, S_6, S_7, S_8, S_9, S_A, S_J, S_K, S_Q,
};
use shengji_mechanics::types::{Card, EffectiveSuit, Number, PlayerID, Suit, Trump};

const TRUMP: Trump = Trump::Standard {
    number: Number::Four,
    suit: Suit::Spades,
};
const P1: PlayerID = PlayerID(1);
const P2: PlayerID = PlayerID(2);
const P3: PlayerID = PlayerID(3);
const P4: PlayerID = PlayerID(4);

fn oc(card: Card) -> OrderedCard {
    OrderedCard { card, trump: TRUMP }
}

fn oc_t(card: Card, trump: Trump) -> OrderedCard {
    OrderedCard { card, trump }
}

fn pc_full<'a>(
    id: PlayerID,
    cards: &'a [Card],
    trick_draw_policy: TrickDrawPolicy,
    throw_eval_policy: ThrowEvaluationPolicy,
) -> PlayCards<'a, 'a> {
    PlayCards {
        id,
        cards,
        trick_draw_policy,
        throw_eval_policy,
        format_hint: None,
        hide_throw_halting_player: false,
    }
}

fn pc_tep(id: PlayerID, cards: &[Card], tep: ThrowEvaluationPolicy) -> PlayCards<'_, '_> {
    pc_full(id, cards, TrickDrawPolicy::NoProtections, tep)
}

fn pc(id: PlayerID, cards: &[Card]) -> PlayCards<'_, '_> {
    pc_full(id, cards, TrickDrawPolicy::NoProtections, ThrowEvaluationPolicy::All)
}

fn four_hands(p1: Vec<Card>, p2: Vec<Card>, p3: Vec<Card>, p4: Vec<Card>) -> Hands {
    let mut hands = Hands::new(vec![P1, P2, P3, P4]);
    hands.add(P1, p1).unwrap();
    hands.add(P2, p2).unwrap();
    hands.add(P3, p3).unwrap();
    hands.add(P4, p4).unwrap();
    hands
}

fn check_formats(cards: Vec<Card>, expected: Vec<Vec<Vec<Card>>>) {
    let units = TrickUnit::find_plays(TRUMP, cards.clone());
    assert_eq!(
        units
            .iter()
            .map(|us| us.iter().map(|u| u.cards()).collect::<Vec<_>>())
            .collect::<HashSet<Vec<Vec<Card>>>>(),
        expected.into_iter().collect::<HashSet<_>>()
    );
    for u in units {
        let shapes = u.iter().map(UnitLike::from_unit).collect::<Vec<_>>();
        let (found, play) =
            UnitLike::check_play(TRUMP, &cards, &shapes, TrickDrawPolicy::NoProtections);
        assert!(found);
        assert_eq!(
            shapes.iter().cloned().collect::<HashSet<_>>(),
            play.iter().map(UnitLike::from_matching).collect::<HashSet<_>>()
        );
    }
}

#[test]
fn test_play_formats() {
    check_formats(vec![H_2(), H_3(), H_7()], vec![vec![vec![H_7()], vec![H_3()], vec![H_2()]]]);
    check_formats(vec![H_2(), H_2(), H_2()], vec![vec![vec![H_2(), H_2(), H_2()]]]);
    check_formats(
        vec![H_2(), H_2(), H_3(), H_3()],
        vec![vec![vec![H_2(), H_2(), H_3(), H_3()]]],
    );
    check_formats(
        vec![H_2(), H_2(), H_2(), H_3(), H_3()],
        vec![
            vec![vec![H_2()], vec![H_2(), H_2(), H_3(), H_3()]],
            vec![vec![H_3(), H_3()], vec![H_2(), H_2(), H_2()]],
        ],
    );
    check_formats(
        vec![H_2(), H_2(), H_3(), H_3(), H_3()],
        vec![
            vec![vec![H_3()], vec![H_2(), H_2(), H_3(), H_3()]],
            vec![vec![H_3(), H_3(), H_3()], vec![H_2(), H_2()]],
        ],
    );
    check_formats(
        vec![H_4(), H_4(), S_4(), S_4()],
        vec![vec![vec![H_4(), H_4(), S_4(), S_4()]]],
    );
    check_formats(
        vec![H_4(), H_4(), S_A(), S_A()],
        vec![vec![vec![S_A(), S_A(), H_4(), H_4()]]],
    );
    check_formats(
        vec![S_Q(), S_Q(), S_K(), S_K(), S_A()],
        vec![vec![vec![S_A()], vec![S_Q(), S_Q(), S_K(), S_K()]]],
    );
    check_formats(
        vec![H_3(), H_3(), H_3(), H_5(), H_5(), H_5()],
        vec![vec![vec![H_3(), H_3(), H_3(), H_5(), H_5(), H_5()]]],
    );
    check_formats(
        vec![H_2(), H_2(), H_3(), H_3(), H_3(), H_5(), H_5(), H_5()],
        vec![
            vec![vec![H_5(), H_5(), H_5()], vec![H_3()], vec![H_2(), H_2(), H_3(), H_3()]],
            vec![vec![H_3(), H_3(), H_3(), H_5(), H_5(), H_5()], vec![H_2(), H_2()]],
            vec![vec![H_5()], vec![H_3()], vec![H_2(), H_2(), H_3(), H_3(), H_5(), H_5()]],
        ],
    );
}

fn run_simple(
    hands: Vec<Vec<Card>>,
    plays: Vec<Vec<Card>>,
    tep: ThrowEvaluationPolicy,
) -> TrickEnded {
    let mut it = hands.into_iter();
    let mut h = four_hands(
        it.next().unwrap(),
        it.next().unwrap(),
        it.next().unwrap(),
        it.next().unwrap(),
    );
    let mut trick = Trick::new(TRUMP, vec![P1, P2, P3, P4]);
    for (id, cards) in [P1, P2, P3, P4].into_iter().zip(plays.iter()) {
        trick.play_cards(pc_tep(id, cards, tep), &mut h).unwrap();
    }
    trick.complete().unwrap()
}

const ALL_TEPS: [ThrowEvaluationPolicy; 3] = [
    ThrowEvaluationPolicy::All,
    ThrowEvaluationPolicy::Highest,
    ThrowEvaluationPolicy::TrickUnitLength,
];

#[test]
fn test_play_singles_trick() {
    for tep in ALL_TEPS {
        let TrickEnded {
            winner: winner_id,
            points,
            largest_trick_unit_size,
            ..
        } = run_simple(
            vec![
                vec![S_2(), S_3(), S_5()],
                vec![S_2(), S_3(), S_5()],
                vec![S_2(), S_3(), S_5()],
                vec![S_2(), S_3(), S_5()],
            ],
            vec![vec![S_2()], vec![S_5()], vec![S_3()], vec![S_5()]],
            tep,
        );
        assert_eq!(winner_id, P2);
        assert_eq!(largest_trick_unit_size, 1);
        assert_eq!(points, vec![S_5(), S_5()]);
    }
}

#[test]
fn test_play_trump_trick() {
    for tep in ALL_TEPS {
        let TrickEnded {
            winner: winner_id,
            points,
            largest_trick_unit_size,
            ..
        } = run_simple(
            vec![
                vec![S_2(), S_3(), S_5()],
                vec![H_2(), H_3(), S_4()],
                vec![S_2(), S_3(), S_5()],
                vec![S_2(), S_3(), S_5()],
            ],
            vec![vec![S_2()], vec![S_4()], vec![S_3()], vec![S_5()]],
            tep,
        );
        assert_eq!(winner_id, P2);
        assert_eq!(largest_trick_unit_size, 1);
        assert_eq!(points, vec![S_5()]);
    }
}

#[test]
fn test_play_pairs_trick() {
    for tep in ALL_TEPS {
        let TrickEnded {
            winner: winner_id,
            points,
            largest_trick_unit_size,
            ..
        } = run_simple(
            vec![
                vec![S_2(), S_2(), S_5()],
                vec![H_2(), S_3(), S_4()],
                vec![S_5(), S_5(), S_5()],
                vec![S_3(), S_4(), S_5()],
            ],
            vec![
                vec![S_2(), S_2()],
                vec![S_3(), S_4()],
                vec![S_5(), S_5()],
                vec![S_3(), S_5()],
            ],
            tep,
        );
        assert_eq!(winner_id, P3);
        assert_eq!(largest_trick_unit_size, 2);
        assert_eq!(points, vec![S_5(), S_5(), S_5()]);
    }
}

#[test]
fn test_play_tractor_trick() {
    for tep in ALL_TEPS {
        let TrickEnded {
            winner: winner_id,
            points,
            largest_trick_unit_size,
            ..
        } = run_simple(
            vec![
                vec![S_2(), S_2(), S_3(), S_3(), S_4()],
                vec![S_6(), S_6(), S_7(), S_7(), S_4()],
                vec![S_2(), S_5(), S_5(), S_5(), S_4()],
                vec![S_6(), S_6(), S_6(), S_6(), S_4()],
            ],
            vec![
                vec![S_2(), S_2(), S_3(), S_3()],
                vec![S_6(), S_6(), S_7(), S_7()],
                vec![S_2(), S_5(), S_5(), S_5()],
                vec![S_6(), S_6(), S_6(), S_6()],
            ],
            tep,
        );
        assert_eq!(winner_id, P2);
        assert_eq!(largest_trick_unit_size, 4);
        assert_eq!(points, vec![S_5(), S_5(), S_5()]);
    }
}

#[test]
fn test_play_throw_trick() {
    let TrickEnded {
        winner: winner_id,
        points,
        largest_trick_unit_size,
        ..
    } = run_simple(
        vec![
            vec![H_8(), H_8(), H_7(), H_2()],
            vec![H_2(), S_2(), S_2(), S_2()],
            vec![S_2(), S_2(), S_3(), S_4()],
            vec![S_4(), S_4(), S_4(), S_4()],
        ],
        vec![
            vec![H_8(), H_8(), H_7(), H_2()],
            vec![H_2(), S_2(), S_2(), S_2()],
            vec![S_2(), S_2(), S_3(), S_4()],
            vec![S_4(), S_4(), S_4(), S_4()],
        ],
        ThrowEvaluationPolicy::All,
    );
    assert_eq!(largest_trick_unit_size, 2);
    assert_eq!(winner_id, P3);
    assert_eq!(points, vec![]);
}

#[test]
fn test_play_throw_trick_failure() {
    let mut hands = four_hands(
        vec![H_8(), H_8(), H_7(), H_2()],
        vec![H_2(), S_2(), S_2(), S_2()],
        vec![S_2(), S_2(), S_3(), S_4()],
        vec![S_4(), S_4(), S_4(), H_3()],
    );
    let mut trick = Trick::new(TRUMP, vec![P1, P2, P3, P4]);
    trick
        .play_cards(pc(P1, &[H_8(), H_8(), H_7(), H_2()]), &mut hands)
        .unwrap();
    trick.play_cards(pc(P2, &[H_2()]), &mut hands).unwrap();
    trick.play_cards(pc(P3, &[S_3()]), &mut hands).unwrap();
    trick.play_cards(pc(P4, &[H_3()]), &mut hands).unwrap();
    let TrickEnded {
        winner: winner_id,
        points,
        largest_trick_unit_size,
        failed_throw_size,
    } = trick.complete().unwrap();
    assert_eq!(largest_trick_unit_size, 1);
    assert_eq!(winner_id, P3);
    assert_eq!(points, vec![]);
    assert_eq!(failed_throw_size, 3);
}

#[test]
fn test_play_throw_tractor_extra_cards() {
    let mut hands = four_hands(
        vec![S_Q(), S_Q(), S_K(), S_K(), S_A()],
        vec![S_2(), S_3(), S_3(), S_5(), H_3()],
        vec![S_A(), S_A(), H_3(), H_3(), H_3()],
        vec![H_3(), H_3(), H_3(), H_3(), H_3()],
    );
    let mut trick = Trick::new(TRUMP, vec![P1, P2, P3, P4]);
    trick
        .play_cards(pc(P1, &[S_Q(), S_Q(), S_K(), S_K(), S_A()]), &mut hands)
        .unwrap();
    trick
        .play_cards(pc(P2, &[S_2(), S_3(), S_3(), S_5(), H_3()]), &mut hands)
        .unwrap();
    trick
        .play_cards(pc(P3, &[S_A(), S_A(), H_3(), H_3(), H_3()]), &mut hands)
        .unwrap();
    trick
        .play_cards(pc(P4, &[H_3(), H_3(), H_3(), H_3(), H_3()]), &mut hands)
        .unwrap();
    let TrickEnded {
        winner: winner_id,
        points,
        largest_trick_unit_size,
        failed_throw_size,
    } = trick.complete().unwrap();
    assert_eq!(largest_trick_unit_size, 4);
    assert_eq!(winner_id, P1);
    assert_eq!(
        points
            .into_iter()
            .flat_map(|c| c.points())
            .sum::<usize>(),
        25
    );
    assert_eq!(failed_throw_size, 0);
}

#[test]
fn test_trick_format_basic() {
    let expected_tf = TrickFormat {
        suit: EffectiveSuit::Trump,
        trump: TRUMP,
        units: vec![TrickUnit::Repeated {
            count: 3,
            card: oc(S_2()),
        }],
    };

    assert_eq!(
        TrickFormat::from_cards(TRUMP, &[S_2(), S_2(), S_2()], None).unwrap(),
        expected_tf
    );

    assert!(expected_tf.matches(&[S_2(), S_2(), S_2()]).is_ok());
    assert!(expected_tf.matches(&[S_2(), S_2()]).is_err());
}

#[test]
fn test_trick_format_tractor() {
    let expected_tf = TrickFormat {
        suit: EffectiveSuit::Trump,
        trump: TRUMP,
        units: vec![TrickUnit::Tractor {
            count: 3,
            members: vec![oc(S_2()), oc(S_3()), oc(S_5())],
        }],
    };

    assert_eq!(
        TrickFormat::from_cards(
            TRUMP,
            &[S_2(), S_2(), S_2(), S_3(), S_3(), S_3(), S_5(), S_5(), S_5()],
            None
        )
        .unwrap(),
        expected_tf,
    );
    assert!(expected_tf
        .matches(&[S_2(), S_2(), S_2(), S_3(), S_3(), S_3(), S_5(), S_5(), S_5()])
        .is_ok());
    assert!(expected_tf
        .matches(&[S_3(), S_3(), S_3(), S_5(), S_5(), S_5(), S_6(), S_6(), S_6()])
        .is_ok());
    assert!(expected_tf
        .matches(&[S_2(), S_2(), S_2(), S_3(), S_3(), S_3(), S_6(), S_6(), S_6()])
        .is_err());
}

#[test]
fn test_trick_tractor_throw() {
    let expected_tf = TrickFormat {
        suit: EffectiveSuit::Trump,
        trump: TRUMP,
        units: vec![
            TrickUnit::Tractor {
                count: 2,
                members: vec![oc(S_3()), oc(S_5())],
            },
            TrickUnit::Repeated {
                count: 7,
                card: oc(S_2()),
            },
        ],
    };

    assert_eq!(
        TrickFormat::from_cards(
            TRUMP,
            &[S_2(), S_2(), S_2(), S_2(), S_2(), S_2(), S_2(), S_3(), S_3(), S_5(), S_5()],
            None
        )
        .unwrap(),
        expected_tf
    );
    assert!(expected_tf
        .matches(&[S_2(), S_2(), S_2(), S_2(), S_2(), S_2(), S_2(), S_3(), S_3(), S_5(), S_5()])
        .is_ok());
    assert!(expected_tf
        .matches(&[S_8(), S_8(), S_8(), S_8(), S_8(), S_8(), S_8(), S_3(), S_3(), S_5(), S_5()])
        .is_ok());

    assert!(TrickFormat::from_cards(
        TRUMP,
        &[S_2(), S_2(), S_3(), S_3(), S_5(), S_5(), S_8(), S_8(), S_8()],
        None
    )
    .unwrap()
    .matches(&[S_2(), S_2(), S_2(), S_2(), S_2(), S_3(), S_3(), S_5(), S_5()])
    .is_ok());
}

#[test]
fn test_trick_simple_throw() {
    let expected_tf = TrickFormat {
        suit: EffectiveSuit::Trump,
        trump: TRUMP,
        units: vec![
            TrickUnit::Repeated {
                count: 1,
                card: oc(S_3()),
            },
            TrickUnit::Repeated {
                count: 3,
                card: oc(S_2()),
            },
            TrickUnit::Repeated {
                count: 3,
                card: oc(S_5()),
            },
        ],
    };

    assert_eq!(
        TrickFormat::from_cards(TRUMP, &[S_2(), S_2(), S_2(), S_3(), S_5(), S_5(), S_5()], None)
            .unwrap(),
        expected_tf
    );

    assert!(expected_tf
        .matches(&[S_5(), S_5(), S_5(), S_3(), S_3(), S_3(), S_2()])
        .is_ok());
}

#[test]
fn test_legal_play_pairs() {
    let tf = TrickFormat {
        suit: EffectiveSuit::Trump,
        trump: TRUMP,
        units: vec![TrickUnit::Repeated {
            count: 2,
            card: oc(S_3()),
        }],
    };

    let hand = Card::count(vec![S_2(), S_2(), S_3(), S_3(), S_5(), S_5()]);
    assert!(tf.is_legal_play(&hand, &[S_2(), S_2()], TrickDrawPolicy::NoProtections));
    assert!(!tf.is_legal_play(&hand, &[S_2(), S_3()], TrickDrawPolicy::NoProtections));
    assert!(!tf.is_legal_play(&hand, &[S_2(), S_3(), S_3()], TrickDrawPolicy::NoProtections));
    assert!(tf.is_legal_play(&hand, &[S_2(), S_2()], TrickDrawPolicy::NoFormatBasedDraw));
    assert!(tf.is_legal_play(&hand, &[S_2(), S_3()], TrickDrawPolicy::NoFormatBasedDraw));
    assert!(!tf.is_legal_play(&hand, &[S_2(), S_3(), S_3()], TrickDrawPolicy::NoFormatBasedDraw));

    // Check that we don't break longer tuples if that's not required
    let hand = Card::count(vec![S_2(), S_2(), S_2(), S_3(), S_5()]);
    assert!(tf.is_legal_play(&hand, &[S_3(), S_5()], TrickDrawPolicy::LongerTuplesProtected));
    assert!(tf.is_legal_play(&hand, &[S_3(), S_5()], TrickDrawPolicy::NoFormatBasedDraw));
    assert!(!tf.is_legal_play(&hand, &[S_3(), S_5()], TrickDrawPolicy::NoProtections));

    let tf = TrickFormat {
        suit: EffectiveSuit::Trump,
        trump: TRUMP,
        units: vec![TrickUnit::Repeated {
            count: 3,
            card: oc(S_3()),
        }],
    };

    let hand = Card::count(vec![S_2(), S_2(), S_3(), S_3(), S_5(), S_5()]);
    assert!(tf.is_legal_play(&hand, &[S_2(), S_2(), S_5()], TrickDrawPolicy::NoProtections));
    assert!(!tf.is_legal_play(&hand, &[S_2(), S_3(), S_5()], TrickDrawPolicy::NoProtections));
    assert!(tf.is_legal_play(&hand, &[S_2(), S_2(), S_5()], TrickDrawPolicy::NoProtections));
    assert!(!tf.is_legal_play(&hand, &[S_2(), S_3(), S_5()], TrickDrawPolicy::NoProtections));
    assert!(tf.is_legal_play(&hand, &[S_2(), S_3(), S_5()], TrickDrawPolicy::NoFormatBasedDraw));

    let tf = TrickFormat {
        suit: EffectiveSuit::Trump,
        trump: TRUMP,
        units: vec![TrickUnit::Repeated {
            count: 5,
            card: oc(S_3()),
        }],
    };
    assert!(tf.is_legal_play(
        &hand,
        &[S_2(), S_2(), S_3(), S_3(), S_5()],
        TrickDrawPolicy::NoProtections
    ));
    assert!(tf.is_legal_play(
        &hand,
        &[S_2(), S_2(), S_3(), S_3(), S_5()],
        TrickDrawPolicy::NoProtections
    ));
    assert!(tf.is_legal_play(
        &hand,
        &[S_2(), S_2(), S_3(), S_3(), S_5()],
        TrickDrawPolicy::NoFormatBasedDraw
    ));

    let hand = Card::count(vec![S_2(), S_2(), S_2(), S_2(), S_3(), S_3(), S_5(), S_5()]);
    assert!(tf.is_legal_play(
        &hand,
        &[S_2(), S_2(), S_2(), S_2(), S_5()],
        TrickDrawPolicy::NoProtections
    ));
    assert!(tf.is_legal_play(
        &hand,
        &[S_2(), S_2(), S_2(), S_2(), S_5()],
        TrickDrawPolicy::NoProtections
    ));
    assert!(tf.is_legal_play(
        &hand,
        &[S_2(), S_2(), S_2(), S_2(), S_5()],
        TrickDrawPolicy::NoFormatBasedDraw
    ));

    let tf = TrickFormat {
        suit: EffectiveSuit::Trump,
        trump: TRUMP,
        units: vec![TrickUnit::Tractor {
            count: 2,
            members: vec![oc(S_2()), oc(S_3())],
        }],
    };
    assert!(!tf.is_legal_play(&hand, &[S_2(), S_2(), S_2(), S_2()], TrickDrawPolicy::NoProtections));
    assert!(tf.is_legal_play(&hand, &[S_2(), S_2(), S_3(), S_3()], TrickDrawPolicy::NoProtections));
    assert!(tf.is_legal_play(&hand, &[S_3(), S_3(), S_5(), S_5()], TrickDrawPolicy::NoProtections));
    assert!(!tf.is_legal_play(
        &hand,
        &[S_2(), S_2(), S_2(), S_2()],
        TrickDrawPolicy::LongerTuplesProtected
    ));
    assert!(tf.is_legal_play(
        &hand,
        &[S_2(), S_2(), S_3(), S_3()],
        TrickDrawPolicy::LongerTuplesProtected
    ));
    assert!(tf.is_legal_play(
        &hand,
        &[S_3(), S_3(), S_5(), S_5()],
        TrickDrawPolicy::LongerTuplesProtected
    ));
    assert!(tf.is_legal_play(
        &hand,
        &[S_2(), S_2(), S_2(), S_2()],
        TrickDrawPolicy::NoFormatBasedDraw
    ));
    assert!(tf.is_legal_play(
        &hand,
        &[S_2(), S_2(), S_3(), S_3()],
        TrickDrawPolicy::NoFormatBasedDraw
    ));
    assert!(tf.is_legal_play(
        &hand,
        &[S_3(), S_3(), S_5(), S_5()],
        TrickDrawPolicy::NoFormatBasedDraw
    ));

    let hand = Card::count(vec![S_2(), S_2(), S_2(), S_2(), S_3(), S_5(), S_5()]);
    assert!(tf.is_legal_play(&hand, &[S_2(), S_2(), S_2(), S_2()], TrickDrawPolicy::NoProtections));
    assert!(tf.is_legal_play(&hand, &[S_2(), S_2(), S_5(), S_5()], TrickDrawPolicy::NoProtections));
    assert!(!tf.is_legal_play(&hand, &[S_2(), S_2(), S_5(), S_3()], TrickDrawPolicy::NoProtections));
    assert!(tf.is_legal_play(
        &hand,
        &[S_2(), S_2(), S_2(), S_2()],
        TrickDrawPolicy::NoFormatBasedDraw
    ));
    assert!(tf.is_legal_play(
        &hand,
        &[S_2(), S_2(), S_5(), S_5()],
        TrickDrawPolicy::NoFormatBasedDraw
    ));
    assert!(tf.is_legal_play(
        &hand,
        &[S_2(), S_2(), S_5(), S_3()],
        TrickDrawPolicy::NoFormatBasedDraw
    ));
    assert!(tf.is_legal_play(
        &hand,
        &[S_2(), S_2(), S_2(), S_2()],
        TrickDrawPolicy::LongerTuplesProtected
    ));
    assert!(tf.is_legal_play(
        &hand,
        &[S_2(), S_2(), S_5(), S_5()],
        TrickDrawPolicy::LongerTuplesProtected
    ));
    // This play is tenuously legal, since the 2222 is protected by the 355 is not, and the
    // trick-format is 2233. Normally we would expect that the 2233 is required, but the player
    // has decided to break the 22 but *not* play the 55.
    assert!(tf.is_legal_play(
        &hand,
        &[S_2(), S_2(), S_5(), S_3()],
        TrickDrawPolicy::LongerTuplesProtected
    ));

    let tf = TrickFormat {
        suit: EffectiveSuit::Trump,
        trump: TRUMP,
        units: vec![
            TrickUnit::Repeated {
                count: 2,
                card: oc(S_2()),
            },
            TrickUnit::Repeated {
                count: 1,
                card: oc(S_3()),
            },
        ],
    };
    let hand = Card::count(vec![S_2(), S_2(), S_2(), S_5()]);
    assert!(tf.is_legal_play(&hand, &[S_2(), S_2(), S_2()], TrickDrawPolicy::NoProtections));
    assert!(tf.is_legal_play(&hand, &[S_2(), S_2(), S_5()], TrickDrawPolicy::NoProtections));
    assert!(tf.is_legal_play(&hand, &[S_2(), S_2(), S_2()], TrickDrawPolicy::NoFormatBasedDraw));
    assert!(tf.is_legal_play(&hand, &[S_2(), S_2(), S_5()], TrickDrawPolicy::NoFormatBasedDraw));
    assert!(tf.is_legal_play(
        &hand,
        &[S_2(), S_2(), S_2()],
        TrickDrawPolicy::LongerTuplesProtected
    ));
    assert!(tf.is_legal_play(
        &hand,
        &[S_2(), S_2(), S_5()],
        TrickDrawPolicy::LongerTuplesProtected
    ));
}

#[test]
fn test_protected_tuple() {
    let tf = TrickFormat {
        suit: EffectiveSuit::Trump,
        trump: TRUMP,
        units: vec![TrickUnit::Repeated {
            card: oc(S_3()),
            count: 3,
        }],
    };
    let hand = Card::count(vec![S_2(), S_2(), S_2(), S_2(), S_5(), S_6(), S_7(), S_8()]);
    assert!(!tf.is_legal_play(&hand, &[S_6(), S_7(), S_8()], TrickDrawPolicy::NoProtections));
    assert!(tf.is_legal_play(&hand, &[S_6(), S_7(), S_8()], TrickDrawPolicy::NoFormatBasedDraw));
    assert!(tf.is_legal_play(
        &hand,
        &[S_6(), S_7(), S_8()],
        TrickDrawPolicy::LongerTuplesProtected
    ));
    let hand = Card::count(vec![S_2(), S_2(), S_2(), S_2(), S_5(), S_5(), S_6(), S_7(), S_8()]);
    assert!(!tf.is_legal_play(&hand, &[S_5(), S_5(), S_6()], TrickDrawPolicy::NoProtections));
    assert!(tf.is_legal_play(&hand, &[S_5(), S_5(), S_6()], TrickDrawPolicy::NoFormatBasedDraw));
    assert!(tf.is_legal_play(
        &hand,
        &[S_5(), S_5(), S_6()],
        TrickDrawPolicy::LongerTuplesProtected
    ));
    assert!(!tf.is_legal_play(
        &hand,
        &[S_6(), S_7(), S_8()],
        TrickDrawPolicy::LongerTuplesProtected
    ));
}

#[test]
fn test_protected_wider_tractor() {
    let tf = TrickFormat {
        suit: EffectiveSuit::Trump,
        trump: TRUMP,
        units: vec![TrickUnit::Tractor {
            members: vec![oc(S_6()), oc(S_7())],
            count: 2,
        }],
    };
    let hand = Card::count(vec![S_2(), S_2(), S_2(), S_3(), S_3(), S_3(), S_5(), S_6(), S_7(), S_8()]);
    assert!(!tf.is_legal_play(&hand, &[S_5(), S_6(), S_7(), S_8()], TrickDrawPolicy::NoProtections));
    assert!(tf.is_legal_play(
        &hand,
        &[S_5(), S_6(), S_7(), S_8()],
        TrickDrawPolicy::NoFormatBasedDraw
    ));
    assert!(tf.is_legal_play(
        &hand,
        &[S_5(), S_6(), S_7(), S_8()],
        TrickDrawPolicy::LongerTuplesProtected
    ));
}

#[test]
fn test_protected_tractor_triple() {
    const HEART_TRUMP: Trump = Trump::Standard {
        number: Number::Four,
        suit: Suit::Hearts,
    };
    let tf = TrickFormat {
        suit: EffectiveSuit::Spades,
        trump: HEART_TRUMP,
        units: vec![
            TrickUnit::Tractor {
                members: vec![oc_t(S_9(), HEART_TRUMP), oc_t(S_9(), HEART_TRUMP)],
                count: 2,
            },
            TrickUnit::Repeated {
                card: oc_t(S_K(), HEART_TRUMP),
                count: 1,
            },
        ],
    };
    let hand = Card::count(vec![S_3(), S_5(), S_10(), S_J(), S_Q(), S_6(), S_8(), S_8(), S_8()]);
    assert!(!tf.is_legal_play(
        &hand,
        &[S_3(), S_5(), S_10(), S_J(), S_Q()],
        TrickDrawPolicy::NoProtections
    ));
    assert!(tf.is_legal_play(
        &hand,
        &[S_3(), S_5(), S_10(), S_J(), S_Q()],
        TrickDrawPolicy::NoFormatBasedDraw
    ));
    assert!(tf.is_legal_play(
        &hand,
        &[S_3(), S_6(), S_8(), S_8(), S_8()],
        TrickDrawPolicy::NoProtections
    ));
    assert!(tf.is_legal_play(
        &hand,
        &[S_3(), S_6(), S_8(), S_8(), S_8()],
        TrickDrawPolicy::NoFormatBasedDraw
    ));
    assert!(tf.is_legal_play(
        &hand,
        &[S_3(), S_5(), S_10(), S_J(), S_Q()],
        TrickDrawPolicy::LongerTuplesProtected
    ));
}

#[test]
fn test_play_throw_tractor_with_other_tractor_in_game() {
    let trump = Trump::Standard {
        number: Number::Four,
        suit: Suit::Hearts,
    };

    let mut hands = Hands::new(vec![P1, P2, P3, P4]);
    let p2_hand = vec![H_2(), H_2(), H_3(), H_A(), H_3()];
    let p1_hand = vec![S_Q(), S_Q(), S_K(), S_K(), S_A()];
    let p3_hand = vec![S_A(), S_A(), S_3(), S_3(), S_3()];
    let p4_hand = vec![S_3(), S_3(), S_3(), S_3(), S_3()];

    hands.add(P1, p1_hand.clone()).unwrap();
    hands.add(P2, p2_hand.clone()).unwrap();
    hands.add(P3, p3_hand.clone()).unwrap();
    hands.add(P4, p4_hand.clone()).unwrap();
    let mut trick = Trick::new(trump, vec![P1, P2, P3, P4]);
    trick.play_cards(pc(P1, &p1_hand), &mut hands).unwrap();
    trick.play_cards(pc(P2, &p2_hand), &mut hands).unwrap();
    trick.play_cards(pc(P3, &p3_hand), &mut hands).unwrap();
    trick.play_cards(pc(P4, &p4_hand), &mut hands).unwrap();
    let TrickEnded {
        winner: winner_id,
        points,
        largest_trick_unit_size,
        failed_throw_size,
        ..
    } = trick.complete().unwrap();
    assert_eq!(largest_trick_unit_size, 4);
    assert_eq!(winner_id, P2);
    assert_eq!(points, vec![S_K(), S_K()]);
    assert_eq!(failed_throw_size, 0);
}

#[test]
fn test_long_tractor_decomposition_draws_pairs() {
    let trump = Trump::Standard {
        number: Number::King,
        suit: Suit::Spades,
    };

    let p1_hand = vec![S_7(), S_7(), S_8(), S_8(), S_9(), S_9(), C_4(), C_4()];
    let p2_hand = vec![S_4(), S_10(), S_A(), H_K(), D_K(), C_K(), S_K(), S_K()];
    let p3_hand = vec![S_2(), S_6(), S_J(), S_Q(), H_K(), C_K(), C_10(), Card::SmallJoker];
    let p4_hand = vec![C_4(), C_6(), C_7(), S_3(), S_3(), Card::BigJoker, C_5(), C_8()];

    for policy in &[
        TrickDrawPolicy::NoProtections,
        TrickDrawPolicy::LongerTuplesProtected,
        TrickDrawPolicy::NoFormatBasedDraw,
    ] {
        let mut hands = Hands::new(vec![P1, P2, P3, P4]);

        hands.add(P1, p1_hand.clone()).unwrap();
        hands.add(P2, p2_hand.clone()).unwrap();
        hands.add(P3, p3_hand.clone()).unwrap();
        hands.add(P4, p4_hand.clone()).unwrap();

        let mut trick = Trick::new(trump, vec![P1, P2, P3, P4]);

        trick
            .play_cards(pc_full(P1, &[S_7(), S_7(), S_8(), S_8(), S_9(), S_9()], *policy, ThrowEvaluationPolicy::All), &mut hands)
            .unwrap();
        match *policy {
            TrickDrawPolicy::NoFormatBasedDraw => {
                // This play should succeed, since we don't draw cards based on format
                trick
                    .play_cards(pc_full(P2, &[S_4(), S_10(), S_A(), H_K(), D_K(), C_K()], *policy, ThrowEvaluationPolicy::All), &mut hands)
                    .unwrap();
            }
            TrickDrawPolicy::LongerTuplesProtected
            | TrickDrawPolicy::NoProtections
            | TrickDrawPolicy::OnlyDrawTractorOnTractor => {
                // This play should not succeed, because P2 also has S_K(), S_K() which is a pair.
                if let Err(TrickError::IllegalPlay) = trick.play_cards(pc_full(P2, &[S_4(), S_10(), S_A(), H_K(), D_K(), C_K()], *policy, ThrowEvaluationPolicy::All), &mut hands) {
                    trick
                        .play_cards(pc_full(P2, &[S_4(), S_10(), S_A(), H_K(), S_K(), S_K()], *policy, ThrowEvaluationPolicy::All), &mut hands)
                        .unwrap();
                } else {
                    panic!("Expected play to be illegal, but it wasn't")
                }
            }
        }
        trick
            .play_cards(pc_full(P3, &[S_2(), S_6(), S_J(), S_Q(), H_K(), C_K()], *policy, ThrowEvaluationPolicy::All), &mut hands)
            .unwrap();
        trick
            .play_cards(pc_full(P4, &[C_4(), C_6(), C_7(), S_3(), S_3(), Card::BigJoker], *policy, ThrowEvaluationPolicy::All), &mut hands)
            .unwrap();
    }
}

#[test]
fn test_throw_evaluation_policy_highest_card() {
    let trump = Trump::Standard {
        number: Number::King,
        suit: Suit::Spades,
    };

    let p1_hand = vec![C_4(), C_6()];
    let p2_hand = vec![S_2(), S_3()];
    let p3_hand = vec![S_3(), S_4()];
    let p4_hand = vec![S_2(), Card::BigJoker];

    let run = |policy: ThrowEvaluationPolicy| {
        let mut hands = Hands::new(vec![P1, P2, P3, P4]);

        hands.add(P1, p1_hand.clone()).unwrap();
        hands.add(P2, p2_hand.clone()).unwrap();
        hands.add(P3, p3_hand.clone()).unwrap();
        hands.add(P4, p4_hand.clone()).unwrap();

        let mut trick = Trick::new(trump, vec![P1, P2, P3, P4]);

        trick
            .play_cards(pc_tep(P1, &p1_hand, policy), &mut hands)
            .unwrap();
        trick
            .play_cards(pc_tep(P2, &p2_hand, policy), &mut hands)
            .unwrap();
        trick
            .play_cards(pc_tep(P3, &p3_hand, policy), &mut hands)
            .unwrap();
        trick
            .play_cards(pc_tep(P4, &p4_hand, policy), &mut hands)
            .unwrap();
        let TrickEnded { winner, .. } = trick.complete().unwrap();
        winner
    };

    // P4 beats P3's highest card, but one of P3's cards beats P4's lowest card.

    // In the "all" case, P3 retains the "winner" status.
    assert_eq!(run(ThrowEvaluationPolicy::All), P3);
    // In the "highest" case, P4 wins because P4 played a higher card.
    assert_eq!(run(ThrowEvaluationPolicy::Highest), P4);
}

#[test]
fn test_throw_evaluation_policy_trick_unit_length() {
    let trump = Trump::Standard {
        number: Number::Two,
        suit: Suit::Spades,
    };

    let p1_hand = vec![H_A(), H_K(), H_K(), H_K(), H_9(), H_9()];
    let p2_hand = vec![S_5(), S_5(), S_5(), S_Q(), S_Q(), S_A()];
    let p3_hand = vec![S_5(), S_5(), S_5(), S_A(), S_A(), S_4()];
    let p4_hand = vec![S_4(), S_4(), S_4(), S_3(), S_3(), Card::BigJoker];

    let run = |policy: ThrowEvaluationPolicy| {
        let mut hands = Hands::new(vec![P1, P2, P3, P4]);

        hands.add(P1, p1_hand.clone()).unwrap();
        hands.add(P2, p2_hand.clone()).unwrap();
        hands.add(P3, p3_hand.clone()).unwrap();
        hands.add(P4, p4_hand.clone()).unwrap();

        let mut trick = Trick::new(trump, vec![P1, P2, P3, P4]);

        trick
            .play_cards(pc_tep(P1, &p1_hand, policy), &mut hands)
            .unwrap();
        trick
            .play_cards(pc_tep(P2, &p2_hand, policy), &mut hands)
            .unwrap();
        trick
            .play_cards(pc_tep(P3, &p3_hand, policy), &mut hands)
            .unwrap();
        trick
            .play_cards(pc_tep(P4, &p4_hand, policy), &mut hands)
            .unwrap();
        let TrickEnded { winner, .. } = trick.complete().unwrap();
        winner
    };

    // In the "all" case, P2 retains the "winner" status, since there are no strictly higher
    // plays
    assert_eq!(run(ThrowEvaluationPolicy::All), P2);
    // In the "highest" case, P4 wins because P4 played the highest card (and matched format)
    assert_eq!(run(ThrowEvaluationPolicy::Highest), P4);
    // In the "trick unit length" case, P3 wins because P3 matched-or-beat P2's longest tuples.
    assert_eq!(run(ThrowEvaluationPolicy::TrickUnitLength), P3);
}

#[test]
fn test_throw_of_trump_rank_in_trump() {
    let mut hands = Hands::new(vec![P1, P2, P3, P4]);
    hands.add(P1, vec![H_4(), S_4()]).unwrap();
    hands.add(P2, vec![D_4(), S_2()]).unwrap();
    hands.add(P3, vec![S_3(), S_3()]).unwrap();
    hands.add(P4, vec![S_3(), S_3()]).unwrap();

    let mut trick = Trick::new(TRUMP, vec![P1, P2, P3, P4]);
    trick.play_cards(pc(P1, &[H_4(), S_4()]), &mut hands).unwrap();
    trick.play_cards(pc(P2, &[D_4(), S_2()]), &mut hands).unwrap();
    trick.play_cards(pc(P3, &[S_3(), S_3()]), &mut hands).unwrap();
    trick.play_cards(pc(P4, &[S_3(), S_3()]), &mut hands).unwrap();
    let TrickEnded {
        winner: winner_id,
        points,
        largest_trick_unit_size,
        ..
    } = trick.complete().unwrap();
    assert_eq!(largest_trick_unit_size, 1);
    assert_eq!(winner_id, P1);
    assert_eq!(points, vec![]);
}

#[test]
fn test_trump_throw_single_cards() {
    let f = |tep| {
        let trump = Trump::Standard {
            number: Number::Five,
            suit: Suit::Diamonds,
        };
        let mut hands = Hands::new(vec![P1, P2, P3, P4]);
        hands.set_trump(trump);
        hands.add(P1, vec![C_A(), C_K()]).unwrap();
        hands.add(P2, vec![C_5(), D_A()]).unwrap();
        hands.add(P3, vec![Card::SmallJoker, S_5()]).unwrap();
        hands.add(P4, vec![S_Q(), D_A()]).unwrap();

        let mut trick = Trick::new(trump, vec![P1, P2, P3, P4]);
        trick
            .play_cards(pc_tep(P1, &[C_A(), C_K()], tep), &mut hands)
            .unwrap();
        trick
            .play_cards(pc_tep(P2, &[C_5(), D_A()], tep), &mut hands)
            .unwrap();
        trick
            .play_cards(pc_tep(P3, &[Card::SmallJoker, S_5()], tep), &mut hands)
            .unwrap();
        trick
            .play_cards(pc_tep(P4, &[S_Q(), D_A()], tep), &mut hands)
            .unwrap();
        trick.complete().unwrap()
    };
    let TrickEnded { winner, .. } = f(ThrowEvaluationPolicy::All);
    assert_eq!(winner, P3);

    let TrickEnded { winner, .. } = f(ThrowEvaluationPolicy::Highest);
    assert_eq!(winner, P3);

    let TrickEnded { winner, .. } = f(ThrowEvaluationPolicy::TrickUnitLength);
    assert_eq!(winner, P3);
}

#[test]
fn take_back_restores_hand_and_turn() {
    let mut hands = four_hands(
        vec![S_2(), S_3()],
        vec![S_5(), S_6()],
        vec![S_7(), S_8()],
        vec![S_9(), S_10()],
    );
    let mut trick = Trick::new(TRUMP, vec![P1, P2, P3, P4]);
    trick.play_cards(pc(P1, &[S_2()]), &mut hands).unwrap();
    trick.play_cards(pc(P2, &[S_5()]), &mut hands).unwrap();
    assert_eq!(trick.next_player(), Some(P3));
    assert_eq!(hands.get(P2).unwrap().get(S_5()), 0);
    assert_eq!(
        trick.take_back(P1, &mut hands, ThrowEvaluationPolicy::All),
        Err(TrickError::OutOfOrder)
    );
    trick
        .take_back(P2, &mut hands, ThrowEvaluationPolicy::All)
        .unwrap();
    assert_eq!(trick.next_player(), Some(P2));
    assert_eq!(hands.get(P2).unwrap().get(S_5()), 1);
    assert_eq!(trick.played_cards().len(), 1);
    trick
        .take_back(P1, &mut hands, ThrowEvaluationPolicy::All)
        .unwrap();
    assert!(trick.trick_format().is_none());
    assert_eq!(trick.next_player(), Some(P1));
}

#[test]
fn play_errors_leave_trick_unchanged() {
    let mut hands = four_hands(
        vec![S_2(), H_3()],
        vec![S_5(), S_6()],
        vec![S_7(), S_8()],
        vec![S_9(), S_10()],
    );
    let mut trick = Trick::new(TRUMP, vec![P1, P2, P3, P4]);
    assert_eq!(
        trick.play_cards(pc(P2, &[S_5()]), &mut hands).unwrap_err(),
        TrickError::OutOfOrder
    );
    assert_eq!(
        trick.play_cards(pc(P1, &[S_2(), H_3()]), &mut hands).unwrap_err(),
        TrickError::WrongNumberOfSuits
    );
    assert_eq!(
        trick.play_cards(pc(P1, &[S_A()]), &mut hands).unwrap_err(),
        TrickError::HandError {
            source: shengji_mechanics::hands::HandError::NotEnoughCards
        }
    );
    assert_eq!(trick.next_player(), Some(P1));
    assert!(trick.played_cards().is_empty());
    trick.play_cards(pc(P1, &[S_2()]), &mut hands).unwrap();
    assert_eq!(
        trick.play_cards(pc(P2, &[S_5(), S_6()]), &mut hands).unwrap_err(),
        TrickError::IllegalPlay
    );
    assert_eq!(trick.complete().unwrap_err(), TrickError::OutOfOrder);
}

#[test]
fn from_cards_rejects_mixed_suits_and_bad_proposals() {
    assert_eq!(
        TrickFormat::from_cards(TRUMP, &[S_2(), H_3()], None),
        Err(TrickError::WrongNumberOfSuits)
    );
    assert_eq!(
        TrickFormat::from_cards(TRUMP, &[], None),
        Err(TrickError::WrongNumberOfSuits)
    );
    let proposal = vec![TrickUnit::Repeated {
        count: 2,
        card: oc(H_3()),
    }];
    assert_eq!(
        TrickFormat::from_cards(TRUMP, &[H_5(), H_5()], Some(&proposal)),
        Err(TrickError::NonMatchingProposal)
    );
    let cards = [H_2(), H_2(), H_2(), H_3(), H_3()];
    let proposal = vec![
        TrickUnit::Repeated {
            count: 2,
            card: oc(H_3()),
        },
        TrickUnit::Repeated {
            count: 3,
            card: oc(H_2()),
        },
    ];
    let tf = TrickFormat::from_cards(TRUMP, &cards, Some(&proposal)).unwrap();
    assert_eq!(tf.units, proposal);
    assert_eq!(tf.suit, EffectiveSuit::Hearts);
    assert_eq!(tf.size(), 5);
    let split = vec![
        TrickUnit::Repeated {
            count: 1,
            card: oc(H_2()),
        },
        TrickUnit::Repeated {
            count: 1,
            card: oc(H_2()),
        },
    ];
    assert_eq!(
        TrickFormat::from_cards(TRUMP, &[H_2(), H_2()], Some(&split)),
        Err(TrickError::NonMatchingProposal)
    );
}

#[test]
fn unit_sizes() {
    let t = TrickUnit::Tractor {
        count: 3,
        members: vec![oc(S_2()), oc(S_3())],
    };
    assert_eq!(t.size(), 6);
    assert!(t.is_tractor());
    assert_eq!(t.first_card(), oc(S_2()));
    assert_eq!(t.last_card(), oc(S_3()));
    let r = TrickUnit::Repeated {
        count: 2,
        card: oc(H_9()),
    };
    assert_eq!(r.size(), 2);
    assert!(r.is_repeated());
    assert_eq!(r.cards(), vec![H_9(), H_9()]);
    assert_eq!(UnitLike::from_unit(&t).adjacent_tuples, vec![3, 3]);
    assert_eq!(UnitLike::from_unit(&t).num_cards(), 6);
}
