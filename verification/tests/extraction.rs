//! Tests for game segmentation, tag extraction, move normalization and
//! result detection.

use pgn_parser::{extract_moves_rs, extract_result_rs, extract_tags_rs, get_games, get_regex, Tag};

#[test]
fn can_get_regex() {
    let re = get_regex().expect("Failed to compile regex");
    let sample = "[Event \"Test Game\"]\n[Site \"?\"]\n\n1. e4 e5 1-0";
    assert!(re.is_match(sample));
}

#[test]
fn can_get_games_from_string() {
    let re = get_regex().expect("Failed to compile regex");
    let sample = r#"[Event "Test Game 1"]
[Site "?"]

1. e4 e5 1-0

[Event "Test Game 2"]
[Site "?"]

1. e4 e5 0-1

[Event "Test Game 3"]
[Site "?"]

1. e4 e5 1/2-1/2

[Event "Test Game 4"]
[Site "?"]
[Third "Tagged Data"]

1. e4 e5 2. d4 d5 1-0

"#;
    let games = get_games(sample, &re);

    assert_eq!(games.len(), 4);
    assert_eq!(
        games[0],
        "[Event \"Test Game 1\"]\n[Site \"?\"]\n\n1. e4 e5 1-0"
    );
    assert_eq!(
        games[1],
        "[Event \"Test Game 2\"]\n[Site \"?\"]\n\n1. e4 e5 0-1"
    );
    assert_eq!(
        games[2],
        "[Event \"Test Game 3\"]\n[Site \"?\"]\n\n1. e4 e5 1/2-1/2"
    );
    assert_eq!(games[3], "[Event \"Test Game 4\"]\n[Site \"?\"]\n[Third \"Tagged Data\"]\n\n1. e4 e5 2. d4 d5 1-0");
}

#[test]
fn can_extract_tags() {
    let game = r#"[Event "Test Game 1"]
[Site "?"]

1. e4 e5 1-0"#;
    let tags = extract_tags_rs(game);
    assert_eq!(tags.len(), 2);
    assert_eq!(tags[0], Tag::new("Event", "Test Game 1"));
    assert_eq!(tags[1], Tag::new("Site", "?"));
}

#[test]
fn can_extract_multiple_tags() {
    let game = r#"[Event "Test Game 1"]
[Site "?"]
[Date "2021.01.01"]
[Round "1"]
[White "White Player"]
[Black "Black Player"]
[Result "1-0"]

1. e4 e5 1-0"#;
    let tags = extract_tags_rs(game);
    assert_eq!(tags.len(), 7);
    assert_eq!(tags[0], Tag::new("Event", "Test Game 1"));
    assert_eq!(tags[1], Tag::new("Site", "?"));
    assert_eq!(tags[2], Tag::new("Date", "2021.01.01"));
    assert_eq!(tags[3], Tag::new("Round", "1"));
    assert_eq!(tags[4], Tag::new("White", "White Player"));
    assert_eq!(tags[5], Tag::new("Black", "Black Player"));
    assert_eq!(tags[6], Tag::new("Result", "1-0"));
}

#[test]
fn can_extract_moves() {
    let game = r#"[Event "Test Game 1"]
[Site "?"]
[Date "2021.01.01"]
[Round "1"]
[White "White Player"]
[Black "Black Player"]
[Result "1-0"]

1. e4 e5 1-0"#;
    let moves = extract_moves_rs(game);
    assert_eq!(moves, Tag::new("Moves", "1. e4 e5"));
}

#[test]
fn can_extract_moves_with_comments() {
    let game = r#"[Event "Test Game 1"]
[Site "?"]
[Date "2021.01.01"]

1. e4 {This is a comment} e5 1-0"#;
    let moves = extract_moves_rs(game);
    assert_eq!(moves, Tag::new("Moves", "1. e4 e5"));
}

#[test]
fn can_extract_moves_with_variations() {
    let game = r#"[Event "Test Game 1"]
[Site "?"]
[Date "2021.01.01"]

1. e4 e5 (1... c5) 1-0"#;
    let moves = extract_moves_rs(game);
    assert_eq!(moves, Tag::new("Moves", "1. e4 e5 (1... c5)"));
}

#[test]
fn can_extract_result() {
    let game = r#"[Event "Test Game 1"]
[Site "?"]
[Date "2021.01.01"]
[Round "1"]
[White "White Player"]
[Black "Black Player"]

1. e4 e5 1-0"#;
    let result = extract_result_rs(game);
    assert_eq!(result, Tag::new("Result", "1-0"));
}
