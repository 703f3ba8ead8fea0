use shengji_mechanics::scoring::{BonusLevelPolicy, GameScoringParameters, ScoringError};
use shengji_mechanics::settings::{scheme_error, PropagatedState, SettingsError};
use shengji_mechanics::types::PlayerID;

#[test]
fn chat_link_must_be_short_https_url() {
    let mut s = PropagatedState::default();
    assert_eq!(
        s.set_chat_link(Some("https://example.com/room".to_string())),
        Ok(())
    );
    assert_eq!(
        s.set_chat_link(Some("http://example.com/room".to_string())),
        Err(SettingsError::NotHttps)
    );
    assert_eq!(
        s.set_chat_link(Some("not a url".to_string())),
        Err(SettingsError::InvalidUrl)
    );
    let long = format!("https://example.com/{}", "a".repeat(120));
    assert_eq!(s.set_chat_link(Some(long)), Err(SettingsError::LinkTooLong));
    assert_eq!(s.set_chat_link(None), Ok(()));
}

#[test]
fn observers_get_fresh_ids_and_unique_names() {
    let mut s = PropagatedState::default();
    let a = s.add_observer("alice".to_string()).unwrap();
    let b = s.add_observer("bob".to_string()).unwrap();
    assert_ne!(a, b);
    assert_eq!(
        s.add_observer("alice".to_string()),
        Err(SettingsError::NameTaken)
    );
    assert_eq!(s.observers().len(), 2);
    s.remove_observer(a).unwrap();
    assert_eq!(s.observers().len(), 1);
    assert_eq!(s.observers()[0].id, b);
    let c = s.add_observer("alice".to_string()).unwrap();
    assert_ne!(c, a);
}

#[test]
fn landlord_must_be_a_player() {
    let mut s = PropagatedState::default();
    assert_eq!(
        s.set_landlord(Some(PlayerID(7))),
        Err(SettingsError::PlayerNotFound)
    );
    assert_eq!(s.set_landlord(None), Ok(()));
    assert_eq!(s.landlord(), None);
    assert_eq!(
        s.reorder_players(&[PlayerID(1)]),
        Err(SettingsError::WrongNumberOfPlayers)
    );
    assert_eq!(s.reorder_players(&[]), Ok(()));
}

#[test]
fn players_join_and_leave() {
    let mut s = PropagatedState::default();
    let (a, msgs) = s.add_player("alice".to_string()).unwrap();
    assert_eq!(msgs.len(), 1);
    let (b, _) = s.add_player("bob".to_string()).unwrap();
    assert_eq!(s.players().len(), 2);
    assert_eq!(s.num_decks(), 1);
    assert_eq!(
        s.add_player("bob".to_string()).unwrap_err(),
        SettingsError::NameTaken
    );
    s.set_landlord(Some(b)).unwrap();
    s.remove_player(b).unwrap();
    assert_eq!(s.landlord(), None);
    assert_eq!(s.players().len(), 1);
    assert_eq!(
        s.remove_player(b).unwrap_err(),
        SettingsError::PlayerNotFound
    );
    s.make_observer(a).unwrap();
    assert_eq!(s.players().len(), 0);
    assert_eq!(s.observers().len(), 1);
    s.make_player(a).unwrap();
    assert_eq!(s.players().len(), 1);
    let c = s.add_observer("carol".to_string()).unwrap();
    let d = s.add_observer("dave".to_string()).unwrap();
    s.make_all_observers_into_players().unwrap();
    let ids: Vec<PlayerID> = s.players().iter().map(|p| p.id).collect();
    assert_eq!(ids, vec![a, d, c]);
    assert!(s.observers().is_empty());
}

#[test]
fn kitty_size_rules() {
    let mut s = PropagatedState::default();
    assert_eq!(s.set_kitty_size(Some(8)).unwrap_err(), SettingsError::NoPlayers);
    for name in ["a", "b", "c", "d"] {
        s.add_player(name.to_string()).unwrap();
    }
    assert_eq!(s.num_decks(), 2);
    assert_eq!(s.set_kitty_size(Some(108)).unwrap_err(), SettingsError::KittyTooLarge);
    assert_eq!(
        s.set_kitty_size(Some(7)).unwrap_err(),
        SettingsError::KittyNotMultipleOfRemainder
    );
    assert!(s.set_kitty_size(Some(8)).unwrap().is_some());
    assert!(s.set_kitty_size(Some(8)).unwrap().is_none());
    assert!(s.set_kitty_size(None).unwrap().is_some());
}

#[test]
fn number_of_decks_rules() {
    let mut s = PropagatedState::default();
    for name in ["a", "b", "c", "d"] {
        s.add_player(name.to_string()).unwrap();
    }
    assert_eq!(s.set_num_decks(Some(0)).unwrap_err(), SettingsError::NoDecks);
    s.set_kitty_size(Some(8)).unwrap();
    let msgs = s.set_num_decks(Some(3)).unwrap();
    assert_eq!(msgs.len(), 2);
    assert_eq!(s.num_decks(), 3);
    assert!(s.set_num_decks(Some(3)).unwrap().is_empty());
    s.set_num_decks(None).unwrap();
    assert_eq!(s.num_decks(), 2);
}

#[test]
fn scoring_parameters_are_checked() {
    let mut s = PropagatedState::default();
    for name in ["a", "b", "c", "d"] {
        s.add_player(name.to_string()).unwrap();
    }
    assert!(s
        .set_game_scoring_parameters(GameScoringParameters::default())
        .unwrap()
        .is_empty());
    let bad = GameScoringParameters::with_parameters(20, 0, 1, true, BonusLevelPolicy::NoBonusLevel);
    assert_eq!(
        s.set_game_scoring_parameters(bad).unwrap_err(),
        SettingsError::Scoring {
            source: ScoringError::LandlordCannotWin
        }
    );
    let good = GameScoringParameters::with_parameters(25, 2, 1, true, BonusLevelPolicy::NoBonusLevel);
    assert_eq!(s.set_game_scoring_parameters(good).unwrap().len(), 1);
    assert!(
        GameScoringParameters::with_parameters(25, 2, 1, true, BonusLevelPolicy::NoBonusLevel)
            == GameScoringParameters::with_parameters(25, 2, 1, true, BonusLevelPolicy::NoBonusLevel)
    );
    assert!(GameScoringParameters::default() != GameScoringParameters::with_parameters(25, 2, 1, true, BonusLevelPolicy::NoBonusLevel));
}

#[test]
fn chat_link_scheme_must_be_https() {
    assert_eq!(scheme_error(Some("https".to_string())), None);
    assert_eq!(scheme_error(Some("http".to_string())), Some(SettingsError::NotHttps));
    assert_eq!(scheme_error(None), Some(SettingsError::InvalidUrl));
}
