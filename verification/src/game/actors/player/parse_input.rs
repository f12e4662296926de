//! From a line of text to what the player wants to do.

use vstd::prelude::*;
use vstd::string::*;
use crate::game::text::{collect_chars, next_word, words, words_from};

verus! {

/// What a player asked for, with the names as they were typed.
#[derive(Debug)]
pub enum PlayerActionEventType {
    Attack { target: String },
    Devour { target: String, organ: String },
    MoveRoom { room: String },
    Struggle,
}

/// A player's request over sequences of characters.
pub enum PlayerAction {
    Attack { target: Seq<char> },
    Devour { target: Seq<char>, organ: Seq<char> },
    MoveRoom { room: Seq<char> },
    Struggle,
}

impl View for PlayerActionEventType {
    type V = PlayerAction;

    open spec fn view(&self) -> PlayerAction {
        match self {
            PlayerActionEventType::Attack { target } => PlayerAction::Attack { target: target@ },
            PlayerActionEventType::Devour { target, organ } => PlayerAction::Devour {
                target: target@,
                organ: organ@,
            },
            PlayerActionEventType::MoveRoom { room } => PlayerAction::MoveRoom { room: room@ },
            PlayerActionEventType::Struggle => PlayerAction::Struggle,
        }
    }
}

/// The grammar of player input, over the words of the line.
///
/// The first word names the action. `attack` and `moveto` take the second
/// word as their object. `devour` takes the second word as the prey and the
/// fourth as the organ, so that any one word may stand between them.
/// `struggle` takes nothing. Words after those are ignored.
pub open spec fn parse_words(w: Seq<Seq<char>>) -> Result<PlayerAction, Seq<char>> {
    if w.len() == 0 {
        Err("Unknown action"@)
    } else if w[0] == "attack"@ {
        if w.len() >= 2 {
            Ok(PlayerAction::Attack { target: w[1] })
        } else {
            Err("Missing target for attack"@)
        }
    } else if w[0] == "devour"@ {
        if w.len() >= 4 {
            Ok(PlayerAction::Devour { target: w[1], organ: w[3] })
        } else if w.len() >= 2 {
            Err("Missing organ for devour"@)
        } else {
            Err("Missing target for devour"@)
        }
    } else if w[0] == "moveto"@ {
        if w.len() >= 2 {
            Ok(PlayerAction::MoveRoom { room: w[1] })
        } else {
            Err("Missing room name"@)
        }
    } else if w[0] == "struggle"@ {
        Ok(PlayerAction::Struggle)
    } else {
        Err("Unknown action"@)
    }
}

/// What a line of input means: its words, read by the grammar.
pub open spec fn parse_spec(text: Seq<char>) -> Result<PlayerAction, Seq<char>> {
    parse_words(words(text))
}

/// Every line gives an action or one of five reasons, and the same line
/// always gives the same.
pub proof fn lemma_parse_total(text: Seq<char>)
    ensures
        match parse_spec(text) {
            Ok(_) => true,
            Err(reason) => {
                ||| reason == "Unknown action"@
                ||| reason == "Missing target for attack"@
                ||| reason == "Missing target for devour"@
                ||| reason == "Missing organ for devour"@
                ||| reason == "Missing room name"@
            },
        },
{
}

/// Whether `r` is the outcome that `expected` describes.
pub open spec fn parsed_as(
    r: Result<PlayerActionEventType, &'static str>,
    expected: Result<PlayerAction, Seq<char>>,
) -> bool {
    match (r, expected) {
        (Ok(action), Ok(want)) => action@ == want,
        (Err(reason), Err(want)) => reason@ == want,
        _ => false,
    }
}

/// Whether the characters of `chars` from `start` up to `end` spell `word`.
fn word_is(chars: &Vec<char>, start: usize, end: usize, word: &str) -> (b: bool)
    requires
        start <= end <= chars@.len(),
    ensures
        b == (chars@.subrange(start as int, end as int) == word@),
{
    let mut at: usize = start;
    let mut same: bool = true;
    let letters = word.chars();
    for c in it: letters
        invariant
            it.seq() == word@,
            start <= end <= chars@.len(),
            same ==> at == start + it.index() && at <= end,
            same == (it.index() <= end - start && forall|j: int|
                0 <= j < it.index() ==> chars@[start + j] == #[trigger] word@[j]),
    {
        if same && at < end && chars[at] == c {
            at = at + 1;
        } else {
            same = false;
        }
    }
    proof {
        let part = chars@.subrange(start as int, end as int);
        if same && at == end {
            assert(part =~= word@);
        }
        if part == word@ {
            assert(forall|j: int| 0 <= j < word@.len() ==> chars@[start + j] == part[j]);
        }
    }
    same && at == end
}

/// The characters of `input` from `start` up to `end`, as a string of their own.
fn word_string(input: &String, start: usize, end: usize) -> (s: String)
    requires
        start <= end <= input@.len(),
    ensures
        s@ == input@.subrange(start as int, end as int),
{
    input.as_str().substring_char(start, end).to_owned()
}

/// Reads one line of player input.
///
/// The line is split into words at whitespace and matched against the
/// grammar of `parse_words`. Every line gives exactly one action or one
/// reason why it gives none.
pub fn parse_player_input(input: &String) -> (r: Result<PlayerActionEventType, &'static str>)
    ensures
        parsed_as(r, parse_spec(input@)),
{
    let chars = collect_chars(input.as_str());
    let ghost s = chars@;
    let (a0, b0) = match next_word(&chars, 0) {
        Some(range) => range,
        None => {
            return Err("Unknown action");
        },
    };
    let second = next_word(&chars, b0);
    proof {
        assert(words(s)[0] == s.subrange(a0 as int, b0 as int));
        assert(words(s).len() == 1 + words_from(s, b0 as int).len());
        if second is Some {
            assert(words(s)[1] == words_from(s, b0 as int)[0]);
        }
    }
    if word_is(&chars, a0, b0, "attack") {
        match second {
            Some((a1, b1)) => Ok(PlayerActionEventType::Attack { target: word_string(input, a1, b1) }),
            None => Err("Missing target for attack"),
        }
    } else if word_is(&chars, a0, b0, "devour") {
        match second {
            Some((a1, b1)) => {
                let target = word_string(input, a1, b1);
                match next_word(&chars, b1) {
                    Some((_a2, b2)) => {
                        match next_word(&chars, b2) {
                            Some((a3, b3)) => {
                                proof {
                                    let rest = words_from(s, b1 as int);
                                    assert(words(s) == seq![s.subrange(a0 as int, b0 as int)] + (
                                    seq![s.subrange(a1 as int, b1 as int)] + rest));
                                    assert(rest[1] == words_from(s, b2 as int)[0]);
                                    assert(words(s)[3] == rest[1]);
                                }
                                Ok(
                                    PlayerActionEventType::Devour {
                                        target,
                                        organ: word_string(input, a3, b3),
                                    },
                                )
                            },
                            None => Err("Missing organ for devour"),
                        }
                    },
                    None => Err("Missing organ for devour"),
                }
            },
            None => Err("Missing target for devour"),
        }
    } else if word_is(&chars, a0, b0, "moveto") {
        match second {
            Some((a1, b1)) => Ok(
                PlayerActionEventType::MoveRoom { room: word_string(input, a1, b1) },
            ),
            None => Err("Missing room name"),
        }
    } else if word_is(&chars, a0, b0, "struggle") {
        Ok(PlayerActionEventType::Struggle)
    } else {
        Err("Unknown action")
    }
}

} // verus!
