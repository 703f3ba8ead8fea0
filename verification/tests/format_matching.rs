use shengji_mechanics::ordered_card::{attempt_format_match, subsequent_decomposition_ordering};
use shengji_mechanics::trick::{TrickDrawPolicy, UnitLike};
use shengji_mechanics::types::cards::{H_2, H_3, H_5, H_7, H_8};
use shengji_mechanics::types::{Card, Number, Suit, Trump};

const TRUMP: Trump = Trump::Standard {
    number: Number::Four,
    suit: Suit::Spades,
};

fn singles(parts: &[usize]) -> Vec<Vec<usize>> {
    parts.iter().map(|p| vec![*p]).collect()
}

#[test]
fn decomposition_of_a_tractor_lists_every_weaker_split() {
    let levels = subsequent_decomposition_ordering(&[vec![2, 2]], false);
    assert_eq!(
        levels,
        vec![singles(&[2, 2]), singles(&[2, 1, 1]), singles(&[1, 1, 1, 1])]
    );
}

#[test]
fn decomposition_leaves_out_the_format_itself() {
    let levels = subsequent_decomposition_ordering(&[vec![2], vec![2]], false);
    assert_eq!(levels, vec![singles(&[2, 1, 1]), singles(&[1, 1, 1, 1])]);

    let levels = subsequent_decomposition_ordering(&[vec![3]], false);
    assert_eq!(levels, vec![singles(&[2, 1]), singles(&[1, 1, 1])]);
}

#[test]
fn decomposition_never_merges_tuples() {
    // A pair and a single cannot become a triple.
    let levels = subsequent_decomposition_ordering(&[vec![2], vec![1]], false);
    assert_eq!(levels, vec![singles(&[1, 1, 1])]);
}

#[test]
fn format_match_finds_a_tractor() {
    let counts = Card::count_slice(&[H_2(), H_2(), H_3(), H_3(), H_7()]);
    let (found, matched) = attempt_format_match(&counts, TRUMP, &[vec![2, 2]], 0, false);
    assert!(found);
    assert_eq!(matched.len(), 1);
    let cards: Vec<(Card, usize)> = matched[0].iter().map(|(c, n)| (c.card, *n)).collect();
    assert_eq!(cards, vec![(H_2(), 2), (H_3(), 2)]);
}

#[test]
fn format_match_fails_without_the_cards() {
    let counts = Card::count_slice(&[H_2(), H_2(), H_3(), H_5(), H_5()]);
    let (found, matched) = attempt_format_match(&counts, TRUMP, &[vec![2, 2]], 0, false);
    assert!(!found);
    assert!(matched.is_empty());
}

#[test]
fn format_match_tries_later_starting_cards() {
    // The weakest pair (2s) cannot start a tractor, the 7s can.
    let counts = Card::count_slice(&[H_2(), H_2(), H_7(), H_7(), H_8(), H_8()]);
    let (found, matched) = attempt_format_match(&counts, TRUMP, &[vec![2, 2]], 0, false);
    assert!(found);
    let cards: Vec<Card> = matched[0].iter().map(|(c, _)| c.card).collect();
    assert_eq!(cards, vec![H_7(), H_8()]);
}

#[test]
fn format_match_matches_groups_in_order() {
    let counts = Card::count_slice(&[H_2(), H_2(), H_3(), H_3(), H_5(), H_5()]);
    let (found, matched) = attempt_format_match(&counts, TRUMP, &[vec![2], vec![2, 2]], 0, false);
    assert!(found);
    let first: Vec<Card> = matched[0].iter().map(|(c, _)| c.card).collect();
    let second: Vec<Card> = matched[1].iter().map(|(c, _)| c.card).collect();
    assert_eq!(first, vec![H_2()]);
    assert_eq!(second, vec![H_3(), H_5()]);
}

#[test]
fn protected_tuples_are_not_split() {
    let cards = [H_2(), H_2(), H_2(), H_3(), H_3()];
    let shapes = vec![UnitLike {
        adjacent_tuples: vec![2, 2],
    }];
    let (found, _) = UnitLike::check_play(TRUMP, &cards, &shapes, TrickDrawPolicy::NoProtections);
    assert!(found);
    let (found, matched) =
        UnitLike::check_play(TRUMP, &cards, &shapes, TrickDrawPolicy::LongerTuplesProtected);
    assert!(!found);
    assert!(matched.is_empty());
}
