use creature_sim::game::actors::player::parse_input::{parse_player_input, PlayerActionEventType};

fn parse(text: &str) -> Result<PlayerActionEventType, &'static str> {
    parse_player_input(&text.to_string())
}

fn expect_err(text: &str, reason: &str) {
    match parse(text) {
        Err(e) => assert_eq!(e, reason, "input {:?}", text),
        Ok(a) => panic!("input {:?} gave {:?}", text, a),
    }
}

#[test]
fn struggle_needs_nothing_more() {
    assert!(matches!(parse("struggle"), Ok(PlayerActionEventType::Struggle)));
    assert!(matches!(parse("  struggle  "), Ok(PlayerActionEventType::Struggle)));
    assert!(matches!(parse("struggle hard now"), Ok(PlayerActionEventType::Struggle)));
}

#[test]
fn attack_takes_the_second_word() {
    match parse("attack Slime") {
        Ok(PlayerActionEventType::Attack { target }) => assert_eq!(target, "Slime"),
        other => panic!("{:?}", other),
    }
    match parse("attack Slime with everything") {
        Ok(PlayerActionEventType::Attack { target }) => assert_eq!(target, "Slime"),
        other => panic!("{:?}", other),
    }
}

#[test]
fn attack_without_target_is_an_error() {
    expect_err("attack", "Missing target for attack");
    expect_err("attack   ", "Missing target for attack");
}

#[test]
fn devour_takes_the_second_and_the_fourth_word() {
    match parse("devour Bob with Stomach") {
        Ok(PlayerActionEventType::Devour { target, organ }) => {
            assert_eq!(target, "Bob");
            assert_eq!(organ, "Stomach");
        }
        other => panic!("{:?}", other),
    }
    match parse("devour Bob using Stomach") {
        Ok(PlayerActionEventType::Devour { target, organ }) => {
            assert_eq!(target, "Bob");
            assert_eq!(organ, "Stomach");
        }
        other => panic!("{:?}", other),
    }
    match parse("devour Bob with Stomach and relish") {
        Ok(PlayerActionEventType::Devour { target, organ }) => {
            assert_eq!(target, "Bob");
            assert_eq!(organ, "Stomach");
        }
        other => panic!("{:?}", other),
    }
}

#[test]
fn devour_with_too_few_words_is_an_error() {
    expect_err("devour", "Missing target for devour");
    expect_err("devour Bob", "Missing organ for devour");
    expect_err("devour Bob with", "Missing organ for devour");
    expect_err("devour Bob Stomach", "Missing organ for devour");
}

#[test]
fn moveto_takes_the_second_word() {
    match parse("moveto Cellar") {
        Ok(PlayerActionEventType::MoveRoom { room }) => assert_eq!(room, "Cellar"),
        other => panic!("{:?}", other),
    }
    expect_err("moveto", "Missing room name");
}

#[test]
fn anything_else_is_unknown() {
    expect_err("fly", "Unknown action");
    expect_err("", "Unknown action");
    expect_err("   \t\n ", "Unknown action");
    expect_err("Attack Slime", "Unknown action");
    expect_err("attacks Slime", "Unknown action");
    expect_err("attac Slime", "Unknown action");
    expect_err("move to Cellar", "Unknown action");
}

#[test]
fn words_are_split_at_any_whitespace() {
    match parse("\tdevour\u{a0}B\u{f6}b\u{2003}with\r\nSt\u{f8}mach\u{3000}") {
        Ok(PlayerActionEventType::Devour { target, organ }) => {
            assert_eq!(target, "B\u{f6}b");
            assert_eq!(organ, "St\u{f8}mach");
        }
        other => panic!("{:?}", other),
    }
    // A zero-width space is no whitespace: it is part of the word.
    expect_err("attack\u{200b}Slime", "Unknown action");
}

#[test]
fn parsing_the_same_line_twice_gives_the_same() {
    for line in ["attack a", "devour a b c", "moveto r", "struggle", "", "x y z"] {
        let first = format!("{:?}", parse(line));
        let second = format!("{:?}", parse(line));
        assert_eq!(first, second);
    }
}

#[test]
fn parser_agrees_with_split_whitespace() {
    let lines = [
        "attack  Slime",
        " attack\tSlime\n",
        "devour a  b   c    d",
        "moveto\u{2028}Cellar",
        "moveto\u{85}Cellar",
        "attack \u{1680}ogre\u{205f}",
    ];
    for line in lines {
        let words: Vec<&str> = line.split_whitespace().collect();
        match parse(line) {
            Ok(PlayerActionEventType::Attack { target }) => {
                assert_eq!(words[0], "attack");
                assert_eq!(target, words[1]);
            }
            Ok(PlayerActionEventType::Devour { target, organ }) => {
                assert_eq!(words[0], "devour");
                assert_eq!(target, words[1]);
                assert_eq!(organ, words[3]);
            }
            Ok(PlayerActionEventType::MoveRoom { room }) => {
                assert_eq!(words[0], "moveto");
                assert_eq!(room, words[1]);
            }
            other => panic!("{:?} for {:?}", other, line),
        }
    }
}
