use pbota::error::RollError;
use pbota::moves::{add_move, get_move, get_move_text, get_moves, Matcher, Move, MoveList};

fn banded(options: Vec<(Matcher, String)>) -> Move {
    Move { preamble: None, postamble: None, options, stat: None }
}

fn three_bands() -> Move {
    banded(vec![
        (Matcher::AtMost(6), "fail text".to_string()),
        (Matcher::Between(7, 9), "mixed text".to_string()),
        (Matcher::AtLeast(10), "success text".to_string()),
    ])
}

#[test]
fn only_matching_band_renders() {
    let mv = three_bands();
    assert_eq!(get_move_text(&mv, "roll", 8), "roll\n\nmixed text\n");
    assert_eq!(get_move_text(&mv, "roll", 6), "roll\n\nfail text\n");
    assert_eq!(get_move_text(&mv, "roll", 10), "roll\n\nsuccess text\n");
    assert_eq!(get_move_text(&mv, "roll", 7), "roll\n\nmixed text\n");
}

#[test]
fn overlapping_bands_all_render_in_order() {
    let mv = banded(vec![
        (Matcher::AtLeast(5), "first".to_string()),
        (Matcher::AtMost(2), "never".to_string()),
        (Matcher::Between(5, 5), "second".to_string()),
    ]);
    assert_eq!(get_move_text(&mv, "r", 5), "r\n\nfirst\nsecond\n");
}

#[test]
fn preamble_and_postamble() {
    let mut mv = three_bands();
    mv.preamble = Some("Before.".to_string());
    mv.postamble = Some("After.".to_string());
    assert_eq!(get_move_text(&mv, "roll", 12), "Before.\n\nroll\n\nsuccess text\nAfter.");
    mv.preamble = Some(String::new());
    assert_eq!(get_move_text(&mv, "roll", 0), "roll\n\nfail text\nAfter.");
}

#[test]
fn move_list_is_sorted() {
    let mut list = MoveList::empty();
    add_move(&mut list, "Overcome", three_bands());
    add_move(&mut list, "GetAway", banded(vec![]));
    add_move(&mut list, "TalkSense", banded(vec![]));
    add_move(&mut list, "GetAway", three_bands());
    assert_eq!(get_moves(&list), vec!["GetAway", "Overcome", "TalkSense"]);
    assert_eq!(get_move(&list, "GetAway").unwrap().options.len(), 3);
    match get_move(&list, "Nope") {
        Err(RollError::MoveNotFound(n)) => assert_eq!(n, "Nope"),
        _ => panic!("expected move not found"),
    }
    assert!(get_moves(&MoveList::empty()).is_empty());
}
