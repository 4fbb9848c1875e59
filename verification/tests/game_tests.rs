use woxirdle::game::{Dictionary, Game, GameStates, LetterState, Turn, TurnErrorKind};

fn dict(words: &[&str]) -> Dictionary {
    Dictionary { words: words.iter().map(|w| String::from(*w)).collect() }
}

#[test]
fn valid_word_is_exact_and_case_sensitive() {
    let d = dict(&["APPLE", "GRAPE"]);
    assert!(d.is_valid_word("APPLE"));
    assert!(d.is_valid_word("GRAPE"));
    assert!(!d.is_valid_word("apple"));
    assert!(!d.is_valid_word("APPL"));
    assert!(!d.is_valid_word("APPLES"));
    assert!(!d.is_valid_word(""));
}

#[test]
fn random_word_of_empty_dictionary_is_none() {
    let d = dict(&[]);
    assert!(d.get_random_word().is_none());
}

#[test]
fn random_word_is_a_member() {
    let d = dict(&["APPLE", "GRAPE", "LEMON"]);
    for _ in 0..20 {
        let w = d.get_random_word().expect("non-empty dictionary");
        assert!(d.is_valid_word(&w));
    }
}

#[test]
fn evaluate_apple_apply() {
    let t = Turn::try_new("APPLE", String::from("APPLY")).unwrap();
    assert_eq!(t.word, "APPLY");
    assert_eq!(
        t.states,
        vec![
            LetterState::Correct,
            LetterState::Correct,
            LetterState::Correct,
            LetterState::Correct,
            LetterState::Excluded,
        ]
    );
}

#[test]
fn evaluate_answer_against_itself_is_all_correct() {
    let t = Turn::try_new("APPLE", String::from("APPLE")).unwrap();
    assert_eq!(t.states.len(), 5);
    assert!(t.states.iter().all(|s| *s == LetterState::Correct));
}

#[test]
fn evaluate_marks_misplaced_letters_included() {
    // ALLOW vs LOLLY: the lenient rule does not consume answer letters, so
    // every L and the O count as Included even where one L is already Correct.
    let t = Turn::try_new("ALLOW", String::from("LOLLY")).unwrap();
    assert_eq!(
        t.states,
        vec![
            LetterState::Included,
            LetterState::Included,
            LetterState::Correct,
            LetterState::Included,
            LetterState::Excluded,
        ]
    );
}

#[test]
fn evaluate_length_mismatch_fails() {
    let e = Turn::try_new("APPLE", String::from("APPLES")).unwrap_err();
    assert_eq!(e.kind, TurnErrorKind::LengthMismatch);
    assert_eq!(e.message, "Guess is not the same length as answer!");
    let e = Turn::try_new("APPLE", String::from("")).unwrap_err();
    assert_eq!(e.kind, TurnErrorKind::LengthMismatch);
}

#[test]
fn evaluate_empty_words_is_ok_and_empty() {
    let t = Turn::try_new("", String::from("")).unwrap();
    assert_eq!(t.states.len(), 0);
    assert_eq!(t.word, "");
}

#[test]
fn game_over_answer_outside_dictionary_fails_to_construct() {
    let d = dict(&["APPLE", "GRAPE"]);
    assert!(Game::new(String::from("LEMON"), &d).is_err());
    assert!(Game::new(String::from("apple"), &d).is_err());
    assert!(Game::new(String::from("APPLE"), &d).is_ok());
}

#[test]
fn new_game_is_in_progress_with_empty_history() {
    let d = dict(&["APPLE"]);
    let g = Game::new(String::from("APPLE"), &d).unwrap();
    assert_eq!(*g.state(), GameStates::InProgress);
    assert_eq!(g.turns().len(), 0);
    assert_eq!(g.answer(), "APPLE");
    assert!(g.turn_strings().is_none());
}

#[test]
fn invalid_guess_changes_nothing() {
    let d = dict(&["APPLE", "GRAPE"]);
    let mut g = Game::new(String::from("APPLE"), &d).unwrap();
    let e = g.take_turn(String::from("LEMON")).unwrap_err();
    assert_eq!(e.kind, TurnErrorKind::InvalidGuess);
    assert_eq!(e.message, "LEMON is not a valid guess!");
    assert_eq!(*g.state(), GameStates::InProgress);
    assert_eq!(g.turns().len(), 0);
}

#[test]
fn guess_of_wrong_length_in_dictionary_is_length_mismatch() {
    // A dictionary need not hold words of one length; such a guess is
    // rejected by the evaluator and changes nothing.
    let d = dict(&["APPLE", "FIG"]);
    let mut g = Game::new(String::from("APPLE"), &d).unwrap();
    let e = g.take_turn(String::from("FIG")).unwrap_err();
    assert_eq!(e.kind, TurnErrorKind::LengthMismatch);
    assert_eq!(*g.state(), GameStates::InProgress);
    assert_eq!(g.turns().len(), 0);
}

#[test]
fn correct_guess_wins_and_ends_the_game() {
    let d = dict(&["APPLE", "GRAPE"]);
    let mut g = Game::new(String::from("APPLE"), &d).unwrap();
    g.take_turn(String::from("GRAPE")).unwrap();
    assert_eq!(*g.state(), GameStates::InProgress);
    g.take_turn(String::from("APPLE")).unwrap();
    assert_eq!(*g.state(), GameStates::Won);
    assert_eq!(g.turns().len(), 2);
    let e = g.take_turn(String::from("GRAPE")).unwrap_err();
    assert_eq!(e.kind, TurnErrorKind::GameAlreadyOver);
    assert_eq!(e.message, "Game is already over!");
    assert_eq!(g.turns().len(), 2);
    assert_eq!(*g.state(), GameStates::Won);
}

#[test]
fn correct_guess_on_last_turn_wins() {
    let d = dict(&["APPLE", "WRONG"]);
    let mut g = Game::new(String::from("APPLE"), &d).unwrap();
    for _ in 0..5 {
        g.take_turn(String::from("WRONG")).unwrap();
    }
    assert_eq!(*g.state(), GameStates::InProgress);
    g.take_turn(String::from("APPLE")).unwrap();
    assert_eq!(*g.state(), GameStates::Won);
}

#[test]
fn six_incorrect_guesses_lose() {
    let d = dict(&["APPLE", "WRONG"]);
    let mut g = Game::new(String::from("APPLE"), &d).unwrap();
    for turn in 1..=6 {
        assert_eq!(*g.state(), GameStates::InProgress);
        g.take_turn(String::from("WRONG")).unwrap();
        if turn < 6 {
            assert_eq!(*g.state(), GameStates::InProgress, "still playing after turn {}", turn);
        }
    }
    assert_eq!(*g.state(), GameStates::Lost);
    assert_eq!(g.turns().len(), 6);
    let e = g.take_turn(String::from("WRONG")).unwrap_err();
    assert_eq!(e.kind, TurnErrorKind::GameAlreadyOver);
    assert_eq!(g.turns().len(), 6);
}

#[test]
fn turn_history_keeps_guesses_in_order() {
    let d = dict(&["APPLE", "GRAPE", "WRONG"]);
    let mut g = Game::new(String::from("APPLE"), &d).unwrap();
    g.take_turn(String::from("WRONG")).unwrap();
    g.take_turn(String::from("GRAPE")).unwrap();
    let turns = g.turns();
    assert_eq!(turns.len(), 2);
    assert_eq!(turns[0].word, "WRONG");
    assert_eq!(turns[1].word, "GRAPE");
    assert_eq!(turns[1].states.len(), 5);
}

#[test]
fn turn_strings_renders_the_last_turn() {
    colored::control::set_override(true);
    let d = dict(&["APPLE", "APPLY"]);
    let mut g = Game::new(String::from("APPLE"), &d).unwrap();
    assert!(g.turn_strings().is_none());
    g.take_turn(String::from("APPLY")).unwrap();
    let s = g.turn_strings().expect("one turn was taken");
    colored::control::unset_override();
    // With coloring forced on, each letter is wrapped in escape codes.
    assert_ne!(s, "APPLY");
    assert!(s.contains('\u{1b}'));
    for c in "APPLY".chars() {
        assert!(s.contains(c), "rendered turn should carry the letter {}", c);
    }
}

#[test]
fn empty_answer_is_won_by_the_empty_guess() {
    // A zero-length answer is a legal, if useless, session: the only valid
    // guess of its length is the empty word, which is vacuously all correct.
    let d = dict(&[""]);
    let mut g = Game::new(String::new(), &d).unwrap();
    assert_eq!(*g.state(), GameStates::InProgress);
    g.take_turn(String::new()).unwrap();
    assert_eq!(*g.state(), GameStates::Won);
    assert_eq!(g.turns().len(), 1);
}
