use shengji_mechanics::scoring::{
    compute_level_deltas, explain_level_deltas, BonusLevelPolicy, GameScoreResult,
    GameScoringParameters, ScoringError, POINTS_PER_DECK,
};

#[test]
fn test_level_deltas() {
    let gsp_nobonus = {
        let mut gsp = GameScoringParameters::default();
        gsp.bonus_level_policy = BonusLevelPolicy::NoBonusLevel;
        gsp
    };
    assert_eq!(
        compute_level_deltas(&gsp_nobonus, 2, POINTS_PER_DECK, -80, false,).unwrap(),
        (GameScoreResult {
            non_landlord_delta: 0,
            landlord_delta: 5,
            landlord_won: true,
            landlord_bonus: false
        })
    );
    assert_eq!(
        compute_level_deltas(&gsp_nobonus, 2, POINTS_PER_DECK, -40, false,).unwrap(),
        (GameScoreResult {
            non_landlord_delta: 0,
            landlord_delta: 4,
            landlord_won: true,
            landlord_bonus: false
        })
    );
    assert_eq!(
        compute_level_deltas(&gsp_nobonus, 2, POINTS_PER_DECK, -35, false,).unwrap(),
        (GameScoreResult {
            non_landlord_delta: 0,
            landlord_delta: 3,
            landlord_won: true,
            landlord_bonus: false
        })
    );
    assert_eq!(
        compute_level_deltas(&gsp_nobonus, 2, POINTS_PER_DECK, 0, false,).unwrap(),
        (GameScoreResult {
            non_landlord_delta: 0,
            landlord_delta: 3,
            landlord_won: true,
            landlord_bonus: false
        })
    );
    assert_eq!(
        compute_level_deltas(&gsp_nobonus, 2, POINTS_PER_DECK, 5, false,).unwrap(),
        (GameScoreResult {
            non_landlord_delta: 0,
            landlord_delta: 2,
            landlord_won: true,
            landlord_bonus: false
        })
    );
    assert_eq!(
        compute_level_deltas(&gsp_nobonus, 2, POINTS_PER_DECK, 35, false,).unwrap(),
        (GameScoreResult {
            non_landlord_delta: 0,
            landlord_delta: 2,
            landlord_won: true,
            landlord_bonus: false
        })
    );
    assert_eq!(
        compute_level_deltas(&gsp_nobonus, 2, POINTS_PER_DECK, 40, false,).unwrap(),
        (GameScoreResult {
            non_landlord_delta: 0,
            landlord_delta: 1,
            landlord_won: true,
            landlord_bonus: false
        })
    );
    assert_eq!(
        compute_level_deltas(&gsp_nobonus, 2, POINTS_PER_DECK, 75, false,).unwrap(),
        (GameScoreResult {
            non_landlord_delta: 0,
            landlord_delta: 1,
            landlord_won: true,
            landlord_bonus: false
        })
    );
    assert_eq!(
        compute_level_deltas(&gsp_nobonus, 2, POINTS_PER_DECK, 80, false,).unwrap(),
        (GameScoreResult {
            non_landlord_delta: 0,
            landlord_delta: 0,
            landlord_won: false,
            landlord_bonus: false
        })
    );
    assert_eq!(
        compute_level_deltas(&gsp_nobonus, 2, POINTS_PER_DECK, 115, false,).unwrap(),
        (GameScoreResult {
            non_landlord_delta: 0,
            landlord_delta: 0,
            landlord_won: false,
            landlord_bonus: false
        })
    );
    assert_eq!(
        compute_level_deltas(&gsp_nobonus, 2, POINTS_PER_DECK, 120, false,).unwrap(),
        (GameScoreResult {
            non_landlord_delta: 1,
            landlord_delta: 0,
            landlord_won: false,
            landlord_bonus: false
        })
    );
    assert_eq!(
        compute_level_deltas(&gsp_nobonus, 2, POINTS_PER_DECK, 155, false,).unwrap(),
        (GameScoreResult {
            non_landlord_delta: 1,
            landlord_delta: 0,
            landlord_won: false,
            landlord_bonus: false
        })
    );
    assert_eq!(
        compute_level_deltas(&gsp_nobonus, 2, POINTS_PER_DECK, 160, false,).unwrap(),
        (GameScoreResult {
            non_landlord_delta: 2,
            landlord_delta: 0,
            landlord_won: false,
            landlord_bonus: false
        })
    );
    assert_eq!(
        compute_level_deltas(&gsp_nobonus, 2, POINTS_PER_DECK, 195, false,).unwrap(),
        (GameScoreResult {
            non_landlord_delta: 2,
            landlord_delta: 0,
            landlord_won: false,
            landlord_bonus: false
        })
    );
    assert_eq!(
        compute_level_deltas(&gsp_nobonus, 2, POINTS_PER_DECK, 200, false,).unwrap(),
        (GameScoreResult {
            non_landlord_delta: 3,
            landlord_delta: 0,
            landlord_won: false,
            landlord_bonus: false
        })
    );
    assert_eq!(
        compute_level_deltas(&gsp_nobonus, 2, POINTS_PER_DECK, 235, false,).unwrap(),
        (GameScoreResult {
            non_landlord_delta: 3,
            landlord_delta: 0,
            landlord_won: false,
            landlord_bonus: false
        })
    );
    assert_eq!(
        compute_level_deltas(&gsp_nobonus, 2, POINTS_PER_DECK, 240, false,).unwrap(),
        (GameScoreResult {
            non_landlord_delta: 4,
            landlord_delta: 0,
            landlord_won: false,
            landlord_bonus: false
        })
    );
    assert_eq!(
        compute_level_deltas(&gsp_nobonus, 2, POINTS_PER_DECK, 280, false,).unwrap(),
        (GameScoreResult {
            non_landlord_delta: 5,
            landlord_delta: 0,
            landlord_won: false,
            landlord_bonus: false
        })
    );
    assert_eq!(
        compute_level_deltas(
            &GameScoringParameters::default(),
            2,
            POINTS_PER_DECK,
            0,
            true,
        )
        .unwrap(),
        (GameScoreResult {
            non_landlord_delta: 0,
            landlord_delta: 4,
            landlord_won: true,
            landlord_bonus: true
        })
    );
    assert_eq!(
        compute_level_deltas(
            &GameScoringParameters::default(),
            3,
            POINTS_PER_DECK,
            0,
            true,
        )
        .unwrap(),
        (GameScoreResult {
            non_landlord_delta: 0,
            landlord_delta: 4,
            landlord_won: true,
            landlord_bonus: true
        })
    );
    assert_eq!(
        compute_level_deltas(
            &GameScoringParameters::default(),
            3,
            POINTS_PER_DECK,
            50,
            true,
        )
        .unwrap(),
        (GameScoreResult {
            non_landlord_delta: 0,
            landlord_delta: 3,
            landlord_won: true,
            landlord_bonus: true
        })
    );
}

#[test]
fn step_adjustment_changes_step_size() {
    let mut gsp = GameScoringParameters::default();
    assert_eq!(gsp.step_size(2, POINTS_PER_DECK), Ok(40));
    gsp.set_step_adjustment(2, 5);
    assert_eq!(gsp.step_size(2, POINTS_PER_DECK), Ok(45));
    assert_eq!(gsp.step_size(3, POINTS_PER_DECK), Ok(60));
}

#[test]
fn explain_starts_at_zero_and_ascends() {
    let gsp = GameScoringParameters::default();
    let e = explain_level_deltas(&gsp, 2, POINTS_PER_DECK, false).unwrap();
    assert!(!e.is_empty());
    assert_eq!(e[0].0, 0);
    for w in e.windows(2) {
        assert!(w[0].0 < w[1].0);
    }
    for (score, res) in e.iter() {
        assert_eq!(
            compute_level_deltas(&gsp, 2, POINTS_PER_DECK, *score, false).unwrap(),
            *res
        );
    }
}

#[test]
fn bonus_policy_smaller_team() {
    let gsp = GameScoringParameters::default();
    let r = compute_level_deltas(&gsp, 2, POINTS_PER_DECK, 0, false).unwrap();
    assert_eq!(
        r,
        GameScoreResult {
            non_landlord_delta: 0,
            landlord_delta: 3,
            landlord_won: true,
            landlord_bonus: false
        }
    );
    let mut nobonus = GameScoringParameters::default();
    nobonus.bonus_level_policy = BonusLevelPolicy::NoBonusLevel;
    let r = compute_level_deltas(&nobonus, 2, POINTS_PER_DECK, 0, true).unwrap();
    assert!(!r.landlord_bonus);
}

#[test]
fn zero_step_size_is_refused() {
    let gsp = GameScoringParameters::with_parameters(0, 2, 1, true, BonusLevelPolicy::NoBonusLevel);
    assert_eq!(
        compute_level_deltas(&gsp, 2, POINTS_PER_DECK, 0, false),
        Err(ScoringError::StepSizeOutOfRange)
    );
}
