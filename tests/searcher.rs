use word_searcher::constraints::ConstraintSet;
use word_searcher::dictionary::{load_dictionary, split_lines};
use word_searcher::filter::{filter_words, is_candidate_word, sample_words};
use word_searcher::grid::{Game, WordModel, WordsModel};
use word_searcher::letter::{LetterModel, LetterState};
use word_searcher::searcher::AppState;

fn dictionary(words: &[&str]) -> Vec<String> {
    words.iter().map(|w| w.to_string()).collect()
}

fn app(words: &[&str]) -> AppState {
    AppState::new(5, words.join("\n").as_bytes())
}

fn type_word(grid: &mut WordsModel, word: &str) {
    for c in word.chars() {
        grid.add_letter(c);
    }
}

fn no_constraints() -> ConstraintSet {
    ConstraintSet { missing: vec![], available: vec![], in_place: vec![] }
}

#[test]
fn from_u32_maps_and_clamps() {
    assert_eq!(LetterState::from_u32(0), LetterState::Empty);
    assert_eq!(LetterState::from_u32(1), LetterState::Missing);
    assert_eq!(LetterState::from_u32(2), LetterState::Available);
    assert_eq!(LetterState::from_u32(3), LetterState::InPlace);
    assert_eq!(LetterState::from_u32(4), LetterState::Missing);
    assert_eq!(LetterState::from_u32(-1), LetterState::Missing);
}

#[test]
fn clear_then_set_equals_fresh_set() {
    let mut used = LetterModel::new();
    used.set('q');
    used.set_state(3);
    used.clear();
    used.set('c');
    let mut fresh = LetterModel::new();
    fresh.set('c');
    assert_eq!(used, fresh);
    assert_eq!(fresh.character, Some('c'));
    assert_eq!(fresh.state, LetterState::Missing);
}

#[test]
fn new_empty_game_is_five_by_five() {
    let game = Game::new_empty();
    assert_eq!(game.words.current_word_index, 0);
    assert_eq!(game.words.words.len(), 5);
    for w in game.words.words.iter() {
        assert_eq!(w.letters.len(), 5);
        assert!(w.letters.iter().all(|l| *l == LetterModel::new()));
    }
}

#[test]
fn word_model_new_is_empty() {
    let w = WordModel::new(6);
    assert_eq!(w.letters.len(), 6);
    assert!(w.is_empty());
    assert!(!w.is_full());
}

#[test]
fn typing_a_row_moves_cursor_by_one() {
    let mut grid = WordsModel::new(5, 5);
    type_word(&mut grid, "abcd");
    assert_eq!(grid.current_word_index, 0);
    grid.add_letter('e');
    assert_eq!(grid.current_word_index, 1);
    assert_eq!(grid.words[0].letters[4].character, Some('e'));
    assert_eq!(grid.words[0].letters[4].state, LetterState::Missing);
}

#[test]
fn typing_the_last_row_keeps_cursor() {
    let mut grid = WordsModel::new(2, 3);
    type_word(&mut grid, "abc");
    assert_eq!(grid.current_word_index, 1);
    type_word(&mut grid, "def");
    assert_eq!(grid.current_word_index, 1);
    assert!(grid.words[1].is_full());
    grid.add_letter('g');
    assert_eq!(grid.current_word_index, 1);
    assert_eq!(grid.words[1].letters[2].character, Some('f'));
}

#[test]
fn backspace_on_empty_first_row_is_noop() {
    let mut grid = WordsModel::new(5, 5);
    grid.remove_letter();
    assert_eq!(grid.current_word_index, 0);
    assert!(grid.words.iter().all(|w| w.is_empty()));
}

#[test]
fn backspace_on_full_last_row_removes_one_letter() {
    let mut grid = WordsModel::new(2, 3);
    type_word(&mut grid, "abcdef");
    assert_eq!(grid.current_word_index, 1);
    grid.remove_letter();
    assert_eq!(grid.current_word_index, 1);
    assert_eq!(grid.words[1].letters[0].character, Some('d'));
    assert_eq!(grid.words[1].letters[1].character, Some('e'));
    assert_eq!(grid.words[1].letters[2], LetterModel::new());
}

#[test]
fn backspace_on_empty_row_moves_back() {
    let mut grid = WordsModel::new(3, 2);
    type_word(&mut grid, "ab");
    assert_eq!(grid.current_word_index, 1);
    grid.remove_letter();
    assert_eq!(grid.current_word_index, 0);
    grid.remove_letter();
    assert_eq!(grid.current_word_index, 0);
    assert_eq!(grid.words[0].letters[0].character, Some('a'));
    assert_eq!(grid.words[0].letters[1], LetterModel::new());
}

#[test]
fn state_change_clamps_and_ignores_out_of_range() {
    let mut grid = WordsModel::new(2, 2);
    type_word(&mut grid, "ab");
    grid.on_letter_state_changed(0, 1, 7);
    assert_eq!(grid.words[0].letters[1].state, LetterState::Missing);
    grid.on_letter_state_changed(0, 0, 2);
    assert_eq!(grid.words[0].letters[0].state, LetterState::Available);
    assert_eq!(grid.words[0].letters[0].character, Some('a'));
    grid.on_letter_state_changed(5, 0, 3);
    grid.on_letter_state_changed(0, 9, 3);
    assert_eq!(grid.words[0].letters[0].state, LetterState::Available);
    assert_eq!(grid.words[0].letters[1].state, LetterState::Missing);
}

#[test]
fn clear_all_resets_grid() {
    let mut app = app(&["apple"]);
    type_word(&mut app.words, "applegra");
    let text = app.clear_all();
    assert_eq!(text, "");
    assert_eq!(app.words.current_word_index, 0);
    assert_eq!(app.words.words.len(), 5);
    assert!(app.words.words.iter().all(|w| w.is_empty() && w.letters.len() == 5));
}

#[test]
fn aggregation_folds_case_and_records_positions() {
    let mut grid = WordsModel::new(2, 3);
    type_word(&mut grid, "ABAcab");
    grid.on_letter_state_changed(0, 0, 2);
    grid.on_letter_state_changed(0, 1, 3);
    grid.on_letter_state_changed(0, 2, 2);
    grid.on_letter_state_changed(1, 1, 2);
    grid.on_letter_state_changed(1, 2, 3);
    let cs = grid.constraints();
    assert_eq!(cs.missing, vec!['c']);
    assert_eq!(cs.available, vec![('a', vec![0, 2, 1])]);
    assert_eq!(cs.in_place, vec![('b', 2)]);
}

#[test]
fn aggregation_twice_gives_same_constraints() {
    let mut grid = WordsModel::new(5, 5);
    type_word(&mut grid, "crane");
    grid.on_letter_state_changed(0, 2, 3);
    grid.on_letter_state_changed(0, 4, 2);
    let a = grid.constraints();
    let b = grid.constraints();
    assert_eq!(a.missing, b.missing);
    assert_eq!(a.available, b.available);
    assert_eq!(a.in_place, b.in_place);
}

#[test]
fn empty_grid_gives_empty_list() {
    let app = app(&["apple", "pear", "grape"]);
    assert_eq!(app.check_words(), "");
    assert_eq!(app.candidates(), Vec::<String>::new());
}

#[test]
fn typed_but_unjudged_letters_exclude_them() {
    let mut app = app(&["apple", "pear", "grape", "tribe"]);
    type_word(&mut app.words, "P");
    assert_eq!(app.check_words(), "tribe");
}

#[test]
fn grape_all_in_place_leaves_grape() {
    let mut app = app(&["APPLE", "GRAPE", "BRAVE", "CRANE"]);
    type_word(&mut app.words, "GRAPE");
    for i in 0..5 {
        app.words.on_letter_state_changed(0, i, 3);
    }
    assert_eq!(app.candidates(), vec!["GRAPE".to_string()]);
    assert_eq!(app.check_words(), "GRAPE");
}

#[test]
fn missing_letter_excludes_word() {
    let cs = ConstraintSet { missing: vec!['x'], available: vec![], in_place: vec![] };
    let found = filter_words(&dictionary(&["APPLE", "BOXED"]), 5, &cs);
    assert_eq!(found, vec!["APPLE".to_string()]);
    let found = filter_words(&dictionary(&["APPLE", "BOXED", "APPLES"]), 5, &cs);
    assert_eq!(found, vec!["APPLE".to_string()]);
    let found = filter_words(&dictionary(&["apple", "boxed", "apples"]), 5, &no_constraints());
    assert_eq!(found, dictionary(&["apple", "boxed"]));
}

#[test]
fn available_letter_excluded_at_known_column() {
    let cs = ConstraintSet { missing: vec![], available: vec![('a', vec![0])], in_place: vec![] };
    assert!(!is_candidate_word("APPLE", 5, &cs));
    assert!(is_candidate_word("GRAPE", 5, &cs));
    assert!(!is_candidate_word("apple", 5, &cs));
    assert!(is_candidate_word("grape", 5, &cs));
    assert!(!is_candidate_word("tribe", 5, &cs));
}

#[test]
fn in_place_tolerates_repeated_letter() {
    let cs = ConstraintSet { missing: vec![], available: vec![], in_place: vec![('p', 2)] };
    assert!(is_candidate_word("apple", 5, &cs));
    assert!(!is_candidate_word("grape", 5, &cs));
    assert!(!is_candidate_word("crane", 5, &cs));
    let cs = ConstraintSet { missing: vec![], available: vec![], in_place: vec![('a', 2)] };
    assert!(is_candidate_word("grape", 5, &cs));
}

#[test]
fn io_folds_to_ie() {
    let cs = ConstraintSet { missing: vec![], available: vec![], in_place: vec![('\u{435}', 1)] };
    assert!(is_candidate_word("\u{451}\u{451}\u{436}", 3, &cs));
    assert!(is_candidate_word("\u{436}\u{451}\u{436}", 3, &cs));
    let cs = ConstraintSet { missing: vec!['\u{451}'], available: vec![], in_place: vec![] };
    assert!(!is_candidate_word("\u{436}\u{435}\u{436}", 3, &cs));
    assert!(!is_candidate_word("\u{416}\u{401}\u{416}", 3, &cs));
}

#[test]
fn filtering_twice_changes_nothing() {
    let cs = ConstraintSet { missing: vec!['x'], available: vec![('r', vec![0])], in_place: vec![] };
    let dict = dictionary(&["apple", "grape", "boxed", "brave", "crane", "rates"]);
    let once = filter_words(&dict, 5, &cs);
    let twice = filter_words(&once, 5, &cs);
    assert_eq!(once, dictionary(&["grape", "brave", "crane"]));
    assert_eq!(twice, once);
}

#[test]
fn sample_takes_first_five_hundred() {
    let dict: Vec<String> = (0..600).map(|i| format!("w{:04}", i)).collect();
    let sample = sample_words(&dict, 5);
    assert_eq!(sample.len(), 500);
    assert_eq!(sample[..], dict[..500]);
    let app = AppState::new(5, dict.join("\n").as_bytes());
    let text = app.ranrom();
    assert_eq!(text, dict[..500].join("\n"));
}

#[test]
fn sample_skips_other_lengths() {
    let dict = dictionary(&["ab", "abcde", "abcdef", "fghij"]);
    assert_eq!(sample_words(&dict, 5), dictionary(&["abcde", "fghij"]));
    assert_eq!(sample_words(&dictionary(&[]), 5), Vec::<String>::new());
}

#[test]
fn lines_split_on_newline_and_drop_carriage_return() {
    let ls = split_lines(b"apple\r\ngrape\n\nbrave");
    assert_eq!(ls, vec![b"apple".to_vec(), b"grape".to_vec(), vec![], b"brave".to_vec()]);
    assert_eq!(split_lines(b"one\n"), vec![b"one".to_vec()]);
    assert_eq!(split_lines(b"one\r\ntwo\r"), vec![b"one".to_vec(), b"two\r".to_vec()]);
    assert_eq!(split_lines(b""), Vec::<Vec<u8>>::new());
}

#[test]
fn undecodable_lines_are_skipped_and_counted() {
    let bytes = [b"apple\n".as_slice(), &[0xff, 0xfe], b"\n\xd0\xb5\xd0\xbb\xd1\x8c\n"].concat();
    let (words, skipped) = load_dictionary(&bytes);
    assert_eq!(words, dictionary(&["apple", "\u{435}\u{43b}\u{44c}"]));
    assert_eq!(skipped, 1);
    let app = AppState::new(3, &bytes);
    assert_eq!(app.skipped_lines, 1);
    assert_eq!(app.nouns.len(), 2);
}

#[test]
fn key_presses_type_delete_and_search() {
    let mut app = app(&["apple", "grape", "brave", "crane"]);
    assert_eq!(app.on_key_pressed("G"), None);
    assert_eq!(app.on_key_pressed("X"), None);
    assert_eq!(app.on_key_pressed("\u{27f5}"), None);
    assert_eq!(app.words.words[0].letters[1], LetterModel::new());
    for k in ["R", "A", "P", "E"] {
        assert_eq!(app.on_key_pressed(k), None);
    }
    assert_eq!(app.words.current_word_index, 1);
    assert_eq!(app.on_key_pressed("Shift"), None);
    assert_eq!(app.words.words[1].letters[0], LetterModel::new());
    for i in 0..5 {
        app.words.on_letter_state_changed(0, i, 3);
    }
    assert_eq!(app.on_key_pressed("Enter"), Some("grape".to_string()));
    assert_eq!(app.on_key_pressed("\u{27f5}"), None);
    assert_eq!(app.words.current_word_index, 0);
}

#[test]
fn cleared_grid_types_like_fresh_grid() {
    let mut used = app(&["apple"]);
    type_word(&mut used.words, "applegr");
    used.words.on_letter_state_changed(1, 0, 2);
    used.clear_all();
    used.words.add_letter('z');
    let mut fresh = app(&["apple"]);
    fresh.words.add_letter('z');
    assert_eq!(used.words.current_word_index, fresh.words.current_word_index);
    for (a, b) in used.words.words.iter().zip(fresh.words.words.iter()) {
        assert_eq!(a.letters, b.letters);
    }
    assert_eq!(used.words.words[0].letters[0].character, Some('z'));
}
