//! Tests for the stated properties of the extractors: segmentation order
//! and idempotence, moves normalization, result detection on every
//! token, empty inputs, and a four-game batch.

use pgn_parser::{
    extract_moves_rs, extract_result_rs, extract_tags_rs, get_games, get_regex, Tag,
};

#[test]
fn resegmenting_a_block_yields_itself() {
    let re = get_regex().expect("Failed to compile regex");
    let sample = "[Event \"A\"]\n\n1. e4 e5 1-0\n\n[Event \"B\"]\n\n1. d4 d5 0-1\n";
    let games = get_games(sample, &re);
    assert_eq!(games.len(), 2);
    for game in &games {
        let again = get_games(game, &re);
        assert_eq!(again.len(), 1);
        assert_eq!(&again[0], game);
    }
}

#[test]
fn moves_normalization_with_comment_and_wrapping() {
    let moves = extract_moves_rs("1. e4 {best by test} e5\n2. Nf3 Nc6 1-0");
    assert_eq!(moves, Tag::new("Moves", "1. e4 e5 2. Nf3 Nc6"));
}

#[test]
fn moves_normalization_keeps_variations() {
    let moves = extract_moves_rs("1. e4 e5 (1... c5) 1-0");
    assert_eq!(moves, Tag::new("Moves", "1. e4 e5 (1... c5)"));
}

#[test]
fn moves_drop_trailing_star() {
    let moves = extract_moves_rs("1. e4 e5 *");
    assert_eq!(moves, Tag::new("Moves", "1. e4 e5"));
}

#[test]
fn moves_of_comment_only_line_are_empty() {
    let moves = extract_moves_rs("[Event \"A\"]\n\n{only a comment}\n");
    assert_eq!(moves, Tag::new("Moves", ""));
}

#[test]
fn result_detection_every_decisive_token() {
    assert_eq!(extract_result_rs("1. e4 e5 1-0"), Tag::new("Result", "1-0"));
    assert_eq!(extract_result_rs("1. e4 e5 0-1"), Tag::new("Result", "0-1"));
    assert_eq!(
        extract_result_rs("1. e4 e5 1/2-1/2"),
        Tag::new("Result", "1/2-1/2")
    );
    assert_eq!(extract_result_rs("1. e4 e5 *"), Tag::new("Result", "*"));
}

#[test]
fn result_requires_exact_token() {
    // A lone digit or a partial token never counts as a result: only the
    // exact tokens 1-0, 0-1 and 1/2-1/2 are detected.
    assert_eq!(extract_result_rs("1. e4 e5 0"), Tag::new("Result", "*"));
    assert_eq!(extract_result_rs("1. e4 e5 1-"), Tag::new("Result", "*"));
    assert_eq!(extract_result_rs("score 2/1"), Tag::new("Result", "*"));
}

#[test]
fn result_takes_the_last_occurrence() {
    let game = "[Event \"A\"]\n\n1. e4 e5 1-0 2. d4 d5 0-1";
    assert_eq!(extract_result_rs(game), Tag::new("Result", "0-1"));
}

#[test]
fn empty_input_everywhere() {
    let re = get_regex().expect("Failed to compile regex");
    assert_eq!(get_games("", &re).len(), 0);
    assert_eq!(extract_tags_rs("").len(), 0);
    assert_eq!(extract_moves_rs(""), Tag::new("Moves", ""));
    assert_eq!(extract_result_rs(""), Tag::new("Result", "*"));
}

#[test]
fn four_game_batch() {
    let re = get_regex().expect("Failed to compile regex");
    let sample = r#"[Event "One"]

1. e4 e5 1-0

[Event "Two"]

1. d4 d5 0-1

[Event "Three"]

1. c4 c5 1/2-1/2

[Event "Four"]

1. Nf3 Nf6 1-0
"#;
    let games = get_games(sample, &re);
    assert_eq!(games.len(), 4);
    let results: Vec<String> = games
        .iter()
        .map(|g| extract_result_rs(g).value)
        .collect();
    assert_eq!(results, vec!["1-0", "0-1", "1/2-1/2", "1-0"]);
    let events: Vec<String> = games
        .iter()
        .map(|g| extract_tags_rs(g)[0].value.clone())
        .collect();
    assert_eq!(events, vec!["One", "Two", "Three", "Four"]);
}

#[test]
fn incomplete_trailing_game_yields_no_block() {
    let re = get_regex().expect("Failed to compile regex");
    let sample = "[Event \"A\"]\n\n1. e4 e5 1-0\n\n[Event \"B\"]\n\n1. d4 d5 *\n";
    let games = get_games(sample, &re);
    assert_eq!(games.len(), 1);
    assert_eq!(games[0], "[Event \"A\"]\n\n1. e4 e5 1-0");
}

#[test]
fn star_never_closes_a_block() {
    let re = get_regex().expect("Failed to compile regex");
    // The undetermined game is swallowed into the span that runs to the
    // nearest decisive token.
    let sample = "[Event \"A\"]\n\n1. e4 e5 *\n\n[Event \"B\"]\n\n1. d4 d5 1-0";
    let games = get_games(sample, &re);
    assert_eq!(games.len(), 1);
    assert_eq!(
        games[0],
        "[Event \"A\"]\n\n1. e4 e5 *\n\n[Event \"B\"]\n\n1. d4 d5 1-0"
    );
}

#[test]
fn unwrap_gives_the_compiled_pattern() {
    let re = get_regex().unwrap();
    assert!(re.is_ok());
    let pattern = re.unwrap();
    let games = get_games("[Event \"A\"]\n\n1. e4 e5 1-0", &pattern);
    assert_eq!(games.len(), 1);
}

#[test]
fn captures_returns_the_first_block() {
    let re = get_regex();
    let sample = "[Event \"A\"]\n\n1. e4 e5 1-0\n\n[Event \"B\"]\n\n1. d4 d5 0-1";
    let first = re.captures(sample);
    assert_eq!(first, Some("[Event \"A\"]\n\n1. e4 e5 1-0".to_string()));
    assert_eq!(re.captures("no games here"), None);
}

#[test]
fn tag_from_pgn_string_parses_the_first_tag() {
    let tag = Tag::from_pgn_string("[Event \"World Championship\"]");
    assert_eq!(tag, Tag::new("Event", "World Championship"));
}

#[test]
fn malformed_tag_lines_are_skipped() {
    let game = "[Event \"A\"]\n[Broken no quotes]\n[Site \"?\"]\n\n1. e4 e5 1-0";
    let tags = extract_tags_rs(game);
    assert_eq!(tags.len(), 2);
    assert_eq!(tags[0], Tag::new("Event", "A"));
    assert_eq!(tags[1], Tag::new("Site", "?"));
}

#[test]
fn tag_round_trip_from_a_known_list() {
    let pairs = [
        ("Event", "Casual Game"),
        ("Site", "London"),
        ("Round", "3"),
        ("White", "A. Player"),
    ];
    let mut text = String::new();
    for (name, value) in pairs.iter() {
        text.push('[');
        text.push_str(name);
        text.push_str(" \"");
        text.push_str(value);
        text.push_str("\"]\n");
    }
    let tags = extract_tags_rs(&text);
    assert_eq!(tags.len(), pairs.len());
    for (tag, (name, value)) in tags.iter().zip(pairs.iter()) {
        assert_eq!(tag, &Tag::new(name, value));
    }
}
