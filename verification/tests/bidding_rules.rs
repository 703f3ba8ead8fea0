use std::collections::HashSet;

use shengji_mechanics::bidding::{
    Bid, BidError, BidPolicy, BidReinforcementPolicy, BidTakebackPolicy, JokerBidPolicy,
};
use shengji_mechanics::hands::Hands;
use shengji_mechanics::player::Player;
use shengji_mechanics::types::cards::{C_2, D_2, H_2, S_2};
use shengji_mechanics::types::{Card, PlayerID};

fn b(p: PlayerID, card: Card, count: usize) -> Bid {
    Bid {
        id: p,
        card,
        count,
        epoch: 0,
    }
}

fn sample_hand(p: PlayerID) -> Hands {
    let mut h = Hands::new(vec![p]);
    h.add(
        p,
        vec![
            C_2(),
            C_2(),
            C_2(),
            S_2(),
            S_2(),
            Card::SmallJoker,
            Card::SmallJoker,
            Card::BigJoker,
            Card::BigJoker,
        ],
    )
    .unwrap();
    h
}

fn check(
    p: PlayerID,
    h: &Hands,
    players: &[Player],
    policy: BidPolicy,
    cases: Vec<(Vec<Bid>, BidReinforcementPolicy, Vec<Bid>)>,
) {
    for (bids, rpol, results) in cases {
        assert_eq!(
            Bid::valid_bids(
                p,
                &bids,
                h,
                players,
                None,
                0,
                policy,
                rpol,
                JokerBidPolicy::BothTwoOrMore,
                3,
            )
            .unwrap()
            .into_iter()
            .collect::<HashSet<_>>(),
            results.into_iter().collect::<HashSet<_>>()
        );
    }
}

#[test]
fn test_valid_bids() {
    let p = PlayerID(0);
    let h = sample_hand(p);
    let players = vec![Player::new(p, "p0".into())];

    let test_cases = vec![
        (
            vec![],
            BidReinforcementPolicy::ReinforceWhileWinning,
            vec![
                b(p, S_2(), 1),
                b(p, S_2(), 2),
                b(p, C_2(), 1),
                b(p, C_2(), 2),
                b(p, C_2(), 3),
                b(p, Card::BigJoker, 2),
                b(p, Card::SmallJoker, 2),
            ],
        ),
        (
            vec![b(p, C_2(), 1)],
            BidReinforcementPolicy::ReinforceWhileWinning,
            vec![b(p, C_2(), 2), b(p, C_2(), 3)],
        ),
        (
            vec![b(p, C_2(), 1)],
            BidReinforcementPolicy::ReinforceWhileEquivalent,
            vec![b(p, C_2(), 2), b(p, C_2(), 3)],
        ),
        (
            vec![b(p, C_2(), 1)],
            BidReinforcementPolicy::OverturnOrReinforceWhileWinning,
            vec![
                b(p, S_2(), 2),
                b(p, C_2(), 2),
                b(p, C_2(), 3),
                b(p, Card::BigJoker, 2),
                b(p, Card::SmallJoker, 2),
            ],
        ),
        (
            vec![b(p, C_2(), 1), b(PlayerID(1), S_2(), 2)],
            BidReinforcementPolicy::ReinforceWhileWinning,
            vec![
                b(p, C_2(), 3),
                b(p, Card::BigJoker, 2),
                b(p, Card::SmallJoker, 2),
            ],
        ),
        (
            vec![b(p, C_2(), 1), b(PlayerID(1), S_2(), 2)],
            BidReinforcementPolicy::OverturnOrReinforceWhileWinning,
            vec![
                b(p, C_2(), 3),
                b(p, Card::BigJoker, 2),
                b(p, Card::SmallJoker, 2),
            ],
        ),
        (
            vec![b(p, C_2(), 1), b(PlayerID(1), S_2(), 2)],
            BidReinforcementPolicy::ReinforceWhileEquivalent,
            vec![
                b(p, C_2(), 2),
                b(p, C_2(), 3),
                b(p, Card::BigJoker, 2),
                b(p, Card::SmallJoker, 2),
            ],
        ),
        (
            vec![b(p, C_2(), 1), b(PlayerID(1), Card::SmallJoker, 2)],
            BidReinforcementPolicy::ReinforceWhileEquivalent,
            vec![b(p, C_2(), 3), b(p, Card::BigJoker, 2)],
        ),
    ];

    check(p, &h, &players, BidPolicy::JokerOrGreaterLength, test_cases);
}

#[test]
fn test_valid_bids_joker_or_higher_suit() {
    let p = PlayerID(0);
    let h = sample_hand(p);
    let players = vec![Player::new(p, "p0".into())];

    let test_cases_higher_suit = vec![
        (
            vec![b(p, C_2(), 1), b(PlayerID(1), S_2(), 2)],
            BidReinforcementPolicy::ReinforceWhileWinning,
            vec![
                b(p, C_2(), 3),
                b(p, Card::BigJoker, 2),
                b(p, Card::SmallJoker, 2),
            ],
        ),
        (
            vec![b(p, C_2(), 1), b(PlayerID(1), H_2(), 2)],
            BidReinforcementPolicy::ReinforceWhileWinning,
            vec![
                b(p, S_2(), 2),
                b(p, C_2(), 3),
                b(p, Card::BigJoker, 2),
                b(p, Card::SmallJoker, 2),
            ],
        ),
        (
            vec![b(p, C_2(), 1), b(PlayerID(1), D_2(), 2)],
            BidReinforcementPolicy::ReinforceWhileWinning,
            vec![
                b(p, S_2(), 2),
                b(p, C_2(), 2),
                b(p, C_2(), 3),
                b(p, Card::BigJoker, 2),
                b(p, Card::SmallJoker, 2),
            ],
        ),
        (
            vec![b(p, C_2(), 1), b(PlayerID(1), D_2(), 3)],
            BidReinforcementPolicy::ReinforceWhileWinning,
            vec![b(p, C_2(), 3)],
        ),
    ];

    check(p, &h, &players, BidPolicy::JokerOrHigherSuit, test_cases_higher_suit);
}

#[test]
fn bid_then_take_back_restores_bids() {
    let p = PlayerID(0);
    let h = sample_hand(p);
    let players = vec![Player::new(p, "p0".into())];
    let mut bids: Vec<Bid> = vec![];
    let made = Bid::bid(
        p,
        C_2(),
        2,
        &mut bids,
        None,
        &h,
        &players,
        None,
        BidPolicy::JokerOrGreaterLength,
        BidReinforcementPolicy::ReinforceWhileWinning,
        JokerBidPolicy::BothTwoOrMore,
        3,
        0,
    );
    assert!(made);
    assert_eq!(bids, vec![b(p, C_2(), 2)]);
    assert_eq!(
        Bid::take_back_bid(PlayerID(1), BidTakebackPolicy::AllowBidTakeback, &mut bids, 0),
        Err(BidError::CannotTakeBack)
    );
    assert_eq!(
        Bid::take_back_bid(p, BidTakebackPolicy::NoBidTakeback, &mut bids, 0),
        Err(BidError::TakebackNotAllowed)
    );
    assert_eq!(
        Bid::take_back_bid(p, BidTakebackPolicy::AllowBidTakeback, &mut bids, 0),
        Ok(())
    );
    assert!(bids.is_empty());
}

#[test]
fn bid_refused_when_not_held_or_autobid() {
    let p = PlayerID(0);
    let h = sample_hand(p);
    let players = vec![Player::new(p, "p0".into())];
    let mut bids: Vec<Bid> = vec![];
    let made = Bid::bid(
        p,
        H_2(),
        1,
        &mut bids,
        None,
        &h,
        &players,
        None,
        BidPolicy::JokerOrGreaterLength,
        BidReinforcementPolicy::ReinforceWhileWinning,
        JokerBidPolicy::BothTwoOrMore,
        3,
        0,
    );
    assert!(!made);
    let made = Bid::bid(
        p,
        C_2(),
        1,
        &mut bids,
        Some(b(PlayerID(1), S_2(), 1)),
        &h,
        &players,
        None,
        BidPolicy::JokerOrGreaterLength,
        BidReinforcementPolicy::ReinforceWhileWinning,
        JokerBidPolicy::BothTwoOrMore,
        3,
        0,
    );
    assert!(!made);
    assert!(bids.is_empty());
}

#[test]
fn first_and_winner_cases() {
    let p = PlayerID(0);
    assert_eq!(Bid::first_and_winner(&[], None), Err(BidError::NoBids));
    let bids = vec![b(p, C_2(), 1), b(PlayerID(1), S_2(), 2)];
    assert_eq!(
        Bid::first_and_winner(&bids, None),
        Ok((b(p, C_2(), 1), b(PlayerID(1), S_2(), 2)))
    );
    let auto = b(PlayerID(2), H_2(), 1);
    assert_eq!(Bid::first_and_winner(&[], Some(auto)), Ok((auto, auto)));
    assert_eq!(
        Bid::first_and_winner(&bids, Some(auto)),
        Ok((b(p, C_2(), 1), auto))
    );
}
