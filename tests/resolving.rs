use pbota::characters::{choose_character, get_current_char, get_stat, new, set_stat, CharConfig};
use pbota::error::RollError;
use pbota::parameters::{parameters, Modifier, Parameters};
use pbota::roll::{calculate_roll, dice_needed, resolve_roll};

fn six() -> CharConfig {
    let mut cfg = CharConfig::empty();
    new(&mut cfg, "Six").unwrap();
    set_stat(&mut cfg, "Six", "Grace", 2).unwrap();
    choose_character(&mut cfg, 7, "Six");
    cfg
}

fn plain(modifiers: Vec<Modifier>) -> Parameters {
    Parameters { modifiers, character: Some("Six".to_string()), hope: false, despair: false }
}

#[test]
fn hope_and_despair_conflict() {
    let cfg = six();
    let mut p = parameters("+2 +Grace =4 h d").unwrap();
    assert!(p.hope && p.despair);
    assert!(matches!(resolve_roll(7, &p, &cfg, (1, 2, 3)), Err(RollError::Conflict)));
    assert!(matches!(calculate_roll(7, &p, &cfg), Err(RollError::Conflict)));
    p.modifiers.clear();
    assert!(matches!(calculate_roll(99, &p, &CharConfig::empty()), Err(RollError::Conflict)));
}

#[test]
fn override_draws_no_dice() {
    let cfg = six();
    let p = plain(vec![Modifier::Override(5)]);
    assert_eq!(dice_needed(&p), 0);
    for d in [(1, 1, 1), (5, 4, 3), (0, -7, 100)] {
        let (sum, text) = resolve_roll(7, &p, &cfg, d).unwrap();
        assert_eq!(sum, 5);
        assert_eq!(text, "Six got a **5**, manually input 5");
    }
    for _ in 0..50 {
        let (sum, text) = calculate_roll(7, &p, &cfg).unwrap();
        assert_eq!(sum, 5);
        assert_eq!(text, "Six got a **5**, manually input 5");
    }
}

#[test]
fn override_then_number() {
    let cfg = six();
    let p = plain(vec![Modifier::Override(5), Modifier::Number(2)]);
    assert_eq!(dice_needed(&p), 0);
    let (sum, text) = resolve_roll(7, &p, &cfg, (4, 4, 4)).unwrap();
    assert_eq!(sum, 7);
    assert_eq!(text, "Six got a **7**, manually input 5+2");
    for _ in 0..20 {
        assert_eq!(calculate_roll(7, &p, &cfg).unwrap().0, 7);
    }
}

#[test]
fn override_discards_earlier_fragments() {
    let cfg = six();
    let p = plain(vec![Modifier::Number(3), Modifier::Override(1), Modifier::Number(-2)]);
    let (sum, text) = resolve_roll(7, &p, &cfg, (4, 4, 4)).unwrap();
    assert_eq!(sum, -1);
    assert_eq!(text, "Six got a **-1**, manually input 1+-2");
}

#[test]
fn unresolved_character_is_not_found() {
    let cfg = CharConfig::empty();
    assert!(matches!(get_stat(&cfg, None, 1, "Grace"), Err(RollError::NoCharacterChosen)));
    assert!(matches!(get_current_char(&cfg, 1), Err(RollError::NoCharacterChosen)));
    let p = parameters("+Grace").unwrap();
    assert!(matches!(resolve_roll(1, &p, &cfg, (1, 1, 1)), Err(RollError::NoCharacterChosen)));
    let q = parameters("+1").unwrap();
    assert!(matches!(resolve_roll(1, &q, &cfg, (1, 1, 1)), Err(RollError::NoCharacterChosen)));
}

#[test]
fn missing_character_and_stat() {
    let cfg = six();
    match get_stat(&cfg, Some("Nobody"), 7, "Grace") {
        Err(RollError::CharacterNotFound(n)) => assert_eq!(n, "Nobody"),
        _ => panic!("expected character not found"),
    }
    match get_stat(&cfg, None, 7, "Iron") {
        Err(RollError::StatNotSet { stat, character }) => {
            assert_eq!(stat, "Iron");
            assert_eq!(character, "Six");
        }
        _ => panic!("expected stat not set"),
    }
    assert_eq!(get_stat(&cfg, None, 7, "Grace").unwrap(), 2);
    assert_eq!(get_stat(&cfg, Some("Six"), 0, "Grace").unwrap(), 2);
}

#[test]
fn six_rolls_grace_with_hope() {
    let cfg = six();
    let p = parameters("+Grace,hope").unwrap();
    assert_eq!(dice_needed(&p), 3);
    let (sum, text) = resolve_roll(7, &p, &cfg, (3, 5, 1)).unwrap();
    assert_eq!(sum, 10);
    assert_eq!(text, "Six got a **10**, (Rolled 3, 5 and 1; dropped 1)+Grace [2]");
    for _ in 0..50 {
        let (sum, text) = calculate_roll(7, &p, &cfg).unwrap();
        assert!(text.starts_with(&format!("Six got a **{}**, (Rolled ", sum)));
        assert!(text.ends_with("+Grace [2]"));
        assert!(text.contains("; dropped "));
        assert!((2 + 2..=2 + 10).contains(&sum));
    }
}

#[test]
fn despair_drops_the_highest() {
    let cfg = six();
    let p = parameters("-Grace dis").unwrap();
    let (sum, text) = resolve_roll(7, &p, &cfg, (4, 2, 5)).unwrap();
    assert_eq!(sum, 4);
    assert_eq!(text, "Six got a **4**, (Rolled 4, 2 and 5; dropped 5)-Grace [-2]");
}

#[test]
fn plain_roll_uses_two_dice() {
    let cfg = six();
    let p = parameters("+1").unwrap();
    assert_eq!(dice_needed(&p), 2);
    let (sum, text) = resolve_roll(7, &p, &cfg, (2, 3, 5)).unwrap();
    assert_eq!(sum, 6);
    assert_eq!(text, "Six got a **6**, (Rolled 2 and 3)+1");
    for _ in 0..100 {
        let (sum, _) = calculate_roll(7, &p, &cfg).unwrap();
        assert!((3..=11).contains(&sum));
    }
}

#[test]
fn explicit_character_needs_no_default() {
    let mut cfg = CharConfig::empty();
    new(&mut cfg, "Ashen").unwrap();
    set_stat(&mut cfg, "Ashen", "Iron", -1).unwrap();
    let p = parameters("@Ashen +Iron").unwrap();
    let (sum, text) = resolve_roll(3, &p, &cfg, (1, 1, 1)).unwrap();
    assert_eq!(sum, 1);
    assert_eq!(text, "Ashen got a **1**, (Rolled 1 and 1)+Iron [-1]");
}

#[test]
fn total_out_of_range() {
    let cfg = six();
    let p = plain(vec![Modifier::Number(2147483647), Modifier::Number(1)]);
    assert!(matches!(resolve_roll(7, &p, &cfg, (1, 1, 1)), Err(RollError::Overflow)));
    let q = plain(vec![Modifier::Override(2147483646)]);
    assert_eq!(resolve_roll(7, &q, &cfg, (1, 1, 1)).unwrap().0, 2147483646);
    let r = plain(vec![Modifier::Number(2147483640)]);
    assert!(matches!(resolve_roll(7, &r, &cfg, (5, 5, 5)), Err(RollError::Overflow)));
}

#[test]
fn store_updates() {
    let mut cfg = six();
    assert!(matches!(new(&mut cfg, "Six"), Err(RollError::CharacterExists(_))));
    assert_eq!(get_stat(&cfg, Some("Six"), 0, "Grace").unwrap(), 2);
    set_stat(&mut cfg, "Six", "Grace", 3).unwrap();
    assert_eq!(get_stat(&cfg, Some("Six"), 0, "Grace").unwrap(), 3);
    assert!(matches!(set_stat(&mut cfg, "Seven", "Grace", 1), Err(RollError::CharacterNotFound(_))));
    choose_character(&mut cfg, 7, "Other");
    assert_eq!(get_current_char(&cfg, 7).unwrap(), "Other");
}

#[test]
fn dice_vary_over_five_faces() {
    let cfg = six();
    let p = plain(vec![]);
    let mut seen = std::collections::HashSet::new();
    for _ in 0..300 {
        let (sum, text) = calculate_roll(7, &p, &cfg).unwrap();
        assert!((2..=10).contains(&sum));
        let dice = text.split("(Rolled ").nth(1).unwrap().trim_end_matches(')');
        let faces: Vec<i32> = dice.split(" and ").map(|d| d.parse().unwrap()).collect();
        assert_eq!(faces.len(), 2);
        assert!(faces.iter().all(|d| (1..=5).contains(d)));
        assert_eq!(faces[0] + faces[1], sum);
        seen.insert(sum);
    }
    assert!(seen.len() > 3);
}
