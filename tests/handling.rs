use pbota::characters::{get_stat, CharConfig};
use pbota::commands::{
    char_command, choose_command, describe_command, move_command, moves_command, new_command, reply,
    roll_command, stat_command,
};
use pbota::error::RollError;
use pbota::moves::{add_move, Matcher, Move, MoveList};
use pbota::text::{join_from, join_with_lines, push_int, split_words};

fn table() -> CharConfig {
    let mut cfg = CharConfig::empty();
    new_command("-char new Six", &mut cfg).unwrap();
    stat_command("-char stat Six Grace 2", &mut cfg).unwrap();
    choose_command(7, "-char choose Six", &mut cfg).unwrap();
    cfg
}

fn overcome() -> MoveList {
    let mut list = MoveList::empty();
    add_move(
        &mut list,
        "Overcome",
        Move {
            preamble: Some("You push through.".to_string()),
            postamble: None,
            options: vec![
                (Matcher::AtMost(6), "On a 6-, it goes badly.".to_string()),
                (Matcher::AtLeast(-100), "Always.".to_string()),
            ],
            stat: Some(("Grace".to_string(), 1)),
        },
    );
    list
}

#[test]
fn words_and_joins() {
    let ws = split_words("-m  Overcome +1 d");
    assert_eq!(ws, vec!["-m", "", "Overcome", "+1", "d"]);
    assert_eq!(join_from(&ws, 2), "Overcome +1 d");
    assert_eq!(join_from(&ws, 5), "");
    assert_eq!(split_words(""), vec![""]);
    assert_eq!(join_with_lines(&vec!["a".to_string(), "b".to_string()]), "a\nb");
    let mut s = String::from("x");
    push_int(&mut s, -2147483648);
    assert_eq!(s, "x-2147483648");
}

#[test]
fn character_commands() {
    let mut cfg = table();
    assert_eq!(char_command(7, &cfg).unwrap(), "You are set up to roll as Six");
    assert!(matches!(char_command(8, &cfg), Err(RollError::NoCharacterChosen)));
    assert_eq!(get_stat(&cfg, None, 7, "Grace").unwrap(), 2);
    assert_eq!(stat_command("-c stat Six Iron -1", &mut cfg).unwrap(), "Six's Iron stat is now -1");
    assert_eq!(new_command("-c new Ashen", &mut cfg).unwrap(), "Character with name Ashen created");
    assert_eq!(choose_command(8, "-c choose Ashen", &mut cfg).unwrap(), "Set up to roll as Ashen");
    match new_command("-c new", &mut cfg) {
        Err(RollError::Missing(w)) => assert_eq!(w, "No name provided"),
        _ => panic!("expected a missing name"),
    }
    match stat_command("-c stat Six Iron", &mut cfg) {
        Err(RollError::Missing(w)) => assert_eq!(w, "No value provided"),
        _ => panic!("expected a missing value"),
    }
    match stat_command("-c stat Six", &mut cfg) {
        Err(RollError::Missing(w)) => assert_eq!(w, "No stat provided"),
        _ => panic!("expected a missing stat"),
    }
    match stat_command("-c stat Six Iron many", &mut cfg) {
        Err(RollError::Parse(t)) => assert_eq!(t, "many"),
        _ => panic!("expected a parse error"),
    }
    assert!(matches!(stat_command("-c stat Nobody Iron 1", &mut cfg), Err(RollError::CharacterNotFound(_))));
    assert!(matches!(new_command("-c new Six", &mut cfg), Err(RollError::CharacterExists(_))));
}

#[test]
fn roll_command_replies() {
    let cfg = table();
    for _ in 0..30 {
        let text = roll_command(7, "-roll +Grace,hope", &cfg).unwrap();
        assert!(text.starts_with("Six got a **"));
        assert!(text.ends_with("+Grace [2]"));
    }
    assert_eq!(roll_command(7, "-r =5", &cfg).unwrap(), "Six got a **5**, manually input 5");
    assert_eq!(roll_command(7, "-r =5 +2", &cfg).unwrap(), "Six got a **7**, manually input 5+2");
    assert!(matches!(roll_command(7, "-r h d", &cfg), Err(RollError::Conflict)));
    assert!(matches!(roll_command(7, "-r =oops", &cfg), Err(RollError::Parse(_))));
    let text = roll_command(7, "-r", &cfg).unwrap();
    assert!(text.starts_with("Six got a **") && text.ends_with(")"));
}

#[test]
fn move_commands() {
    let cfg = table();
    let list = overcome();
    let text = move_command(7, "-m Overcome =3", &list, &cfg).unwrap();
    assert_eq!(
        text,
        "You push through.\n\nSix got a **5**, manually input 3+Grace [2]\n\nOn a 6-, it goes badly.\nAlways.\n"
    );
    for _ in 0..30 {
        let text = move_command(7, "-m Overcome hope", &list, &cfg).unwrap();
        assert!(text.starts_with("You push through.\n\nSix got a **"));
        assert!(text.contains("+Grace [2]\n\n"));
        assert!(text.ends_with("Always.\n"));
    }
    match move_command(7, "-m Nope", &list, &cfg) {
        Err(RollError::MoveNotFound(n)) => assert_eq!(n, "Nope"),
        _ => panic!("expected move not found"),
    }
    match move_command(7, "-m", &list, &cfg) {
        Err(RollError::Missing(w)) => assert_eq!(w, "Move name required"),
        _ => panic!("expected a missing move name"),
    }
    assert!(matches!(move_command(9, "-m Overcome", &list, &cfg), Err(RollError::NoCharacterChosen)));
    assert_eq!(moves_command(&list), "Overcome");
    assert_eq!(
        describe_command("-m describe Overcome", &list).unwrap(),
        "You push through.\nOn a 6-, it goes badly.\nAlways.\n"
    );
    assert!(matches!(describe_command("-m describe", &list), Err(RollError::Missing(_))));
}

#[test]
fn replies_and_messages() {
    assert_eq!(reply(Ok("fine".to_string())), "fine");
    assert_eq!(reply(Err(RollError::Conflict)), "**Error:** You can't roll with advantage AND disadvantage!");
    assert_eq!(reply(Err(RollError::NoCharacterChosen)), "**Error:** No character chosen");
    assert_eq!(
        reply(Err(RollError::StatNotSet { stat: "Iron".to_string(), character: "Six".to_string() })),
        "**Error:** Stat Iron not set for character Six"
    );
    assert_eq!(RollError::CharacterNotFound("X".to_string()).message(), "Character X not found");
    assert_eq!(RollError::MoveNotFound("X".to_string()).message(), "Move X not found");
    assert_eq!(RollError::Parse("q".to_string()).message(), "Invalid number: q");
    let mut list = MoveList::empty();
    add_move(&mut list, "b", overcome_move());
    add_move(&mut list, "a", overcome_move());
    assert_eq!(moves_command(&list), "a\nb");
}

fn overcome_move() -> Move {
    Move { preamble: None, postamble: None, options: vec![], stat: None }
}
