use shengji_mechanics::hands::{HandError, Hands};
use shengji_mechanics::types::cards::{H_2, S_3, S_5};
use shengji_mechanics::types::{Card, PlayerID};

#[test]
fn add_then_remove_restores_hand() {
    let p = PlayerID(0);
    let mut h = Hands::new(vec![p, PlayerID(1)]);
    h.add(p, vec![S_3(), S_5()]).unwrap();
    h.add(p, vec![H_2(), S_3()]).unwrap();
    assert_eq!(h.get(p).unwrap().get(S_3()), 2);
    h.remove(p, vec![H_2(), S_3()]).unwrap();
    assert_eq!(h.get(p).unwrap().get(S_3()), 1);
    assert_eq!(h.get(p).unwrap().get(H_2()), 0);
    assert_eq!(h.get(p).unwrap().get(S_5()), 1);
}

#[test]
fn hand_errors() {
    let p = PlayerID(0);
    let mut h = Hands::new(vec![p]);
    assert_eq!(h.add(PlayerID(3), vec![S_3()]), Err(HandError::NotAPlayer));
    assert_eq!(h.remove(p, vec![S_3()]), Err(HandError::NotEnoughCards));
    h.add(p, vec![S_3()]).unwrap();
    assert_eq!(h.contains(p, &[S_3(), S_3()]), Err(HandError::NotEnoughCards));
    assert_eq!(h.contains(p, &[S_3()]), Ok(()));
    assert_eq!(h.remove(p, vec![S_3(), S_3()]), Err(HandError::NotEnoughCards));
    assert_eq!(h.get(p).unwrap().get(S_3()), 1);
    assert!(h.is_player(p));
    assert!(!h.is_player(PlayerID(9)));
    let _ = Card::Unknown;
}
