use pbota::authoring::{matcher, num};
use pbota::error::RollError;
use pbota::moves::Matcher;
use pbota::parameters::{parameters, Modifier};
use pbota::text::text_lt;

#[test]
fn stat_with_hope() {
    let p = parameters("+Grace,hope").unwrap();
    assert_eq!(p.modifiers.len(), 1);
    match &p.modifiers[0] {
        Modifier::StatRef { sign, stat } => {
            assert_eq!(*sign, 1);
            assert_eq!(stat, "Grace");
        }
        _ => panic!("expected a stat modifier"),
    }
    assert!(p.hope);
    assert!(!p.despair);
    assert!(p.character.is_none());
}

#[test]
fn negative_number() {
    let p = parameters("-2").unwrap();
    assert_eq!(p.modifiers.len(), 1);
    assert!(matches!(p.modifiers[0], Modifier::Number(-2)));
    assert!(!p.hope && !p.despair);
}

#[test]
fn number_with_despair() {
    let p = parameters("+2 d").unwrap();
    assert_eq!(p.modifiers.len(), 1);
    assert!(matches!(p.modifiers[0], Modifier::Number(2)));
    assert!(p.despair);
    assert!(!p.hope);
}

#[test]
fn negative_stat_and_character() {
    let p = parameters("-Iron,@Ashen adv").unwrap();
    match &p.modifiers[0] {
        Modifier::StatRef { sign, stat } => {
            assert_eq!(*sign, -1);
            assert_eq!(stat, "Iron");
        }
        _ => panic!("expected a stat modifier"),
    }
    assert_eq!(p.character.as_deref(), Some("Ashen"));
    assert!(p.hope);
}

#[test]
fn last_character_wins_and_order_kept() {
    let p = parameters("@A =3,,+4 @B dis x").unwrap();
    assert_eq!(p.character.as_deref(), Some("B"));
    assert_eq!(p.modifiers.len(), 2);
    assert!(matches!(p.modifiers[0], Modifier::Override(3)));
    assert!(matches!(p.modifiers[1], Modifier::Number(4)));
    assert!(p.despair);
}

#[test]
fn empty_and_ignored_tokens() {
    let p = parameters("").unwrap();
    assert!(p.modifiers.is_empty());
    let q = parameters("  , hello world hopeful").unwrap();
    assert!(q.modifiers.is_empty());
    assert!(!q.hope && !q.despair);
}

#[test]
fn keyword_spellings() {
    for w in ["h", "hope", "a", "adv"] {
        assert!(parameters(w).unwrap().hope);
    }
    for w in ["d", "despair", "dis"] {
        assert!(parameters(w).unwrap().despair);
    }
}

#[test]
fn bad_override_is_parse_error() {
    match parameters("+1 =x2") {
        Err(RollError::Parse(t)) => assert_eq!(t, "x2"),
        _ => panic!("expected a parse error"),
    }
    assert!(matches!(parameters("="), Err(RollError::Parse(_))));
    assert!(matches!(parameters("=2147483648"), Err(RollError::Parse(_))));
}

#[test]
fn override_with_sign_and_limits() {
    let p = parameters("=+5 =-2147483648 +2147483647").unwrap();
    assert!(matches!(p.modifiers[0], Modifier::Override(5)));
    assert!(matches!(p.modifiers[1], Modifier::Override(-2147483648)));
    assert!(matches!(p.modifiers[2], Modifier::Number(2147483647)));
}

#[test]
fn too_large_number_is_a_stat() {
    let p = parameters("+2147483648 -").unwrap();
    match &p.modifiers[0] {
        Modifier::StatRef { sign, stat } => {
            assert_eq!(*sign, 1);
            assert_eq!(stat, "2147483648");
        }
        _ => panic!("expected a stat modifier"),
    }
    match &p.modifiers[1] {
        Modifier::StatRef { sign, stat } => {
            assert_eq!(*sign, -1);
            assert_eq!(stat, "");
        }
        _ => panic!("expected a stat modifier"),
    }
}

#[test]
fn range_texts() {
    assert_eq!(matcher("6"), Matcher::AtMost(6));
    assert_eq!(matcher("7-9"), Matcher::Between(7, 9));
    assert_eq!(matcher("10+"), Matcher::AtLeast(10));
    assert_eq!(matcher("6-"), Matcher::AtMost(6));
}

#[test]
fn leading_number() {
    assert_eq!(num("12ab"), (12, "ab"));
    assert_eq!(num("x"), (0, "x"));
    assert_eq!(num("345"), (345, ""));
    assert_eq!(num("99999999999-"), (2147483647, "-"));
}

#[test]
fn text_order() {
    assert!(text_lt("Abc", "Abd"));
    assert!(text_lt("Ab", "Abc"));
    assert!(!text_lt("Abc", "Abc"));
    assert!(!text_lt("b", "a"));
    assert!(text_lt("", "a"));
}
