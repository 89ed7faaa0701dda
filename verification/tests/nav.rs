use librsdu::nav::{classify_key, Event, KeyCodes, NavigationState};
use librsdu::tree::aggregate;
use librsdu::FileInfo;

fn sample_tree() -> FileInfo {
    let inner = aggregate(
        "/r/sub/inner".to_string(),
        vec![Ok(FileInfo::file("/r/sub/inner/z".to_string(), 7))],
    );
    let sub = aggregate(
        "/r/sub".to_string(),
        vec![
            Ok(FileInfo::file("/r/sub/x".to_string(), 1)),
            Ok(inner),
            Ok(FileInfo::file("/r/sub/y".to_string(), 2)),
        ],
    );
    let empty = aggregate("/r/empty".to_string(), Vec::new());
    aggregate(
        "/r".to_string(),
        vec![Ok(FileInfo::file("/r/a".to_string(), 100)), Ok(sub), Ok(empty)],
    )
}

fn keys() -> KeyCodes {
    KeyCodes { up: 259, down: 258, backspace: 263 }
}

#[test]
fn starts_at_the_root() {
    let state = NavigationState::new(sample_tree());
    assert!(state.at_root());
    assert_eq!(state.levels_below_root(), 0);
    assert_eq!(state.selected_index(), 0);
    assert_eq!(state.current().path, "/r");
    assert_eq!(state.root().path, "/r");
    assert_eq!(state.entry_count(), 3);
    assert_eq!(state.selected().unwrap().path, "/r/a");
}

#[test]
fn move_up_stops_at_the_first_entry() {
    let mut state = NavigationState::new(sample_tree());
    state.move_up();
    assert_eq!(state.selected_index(), 0);
    state.move_down();
    assert_eq!(state.selected_index(), 1);
    state.move_up();
    assert_eq!(state.selected_index(), 0);
    state.move_up();
    assert_eq!(state.selected_index(), 0);
}

#[test]
fn move_down_stops_at_the_last_entry() {
    let mut state = NavigationState::new(sample_tree());
    state.move_down();
    state.move_down();
    assert_eq!(state.selected_index(), 2);
    state.move_down();
    assert_eq!(state.selected_index(), 2);
    assert_eq!(state.selected().unwrap().path, "/r/empty");
}

#[test]
fn back_at_the_root_changes_nothing() {
    let mut state = NavigationState::new(sample_tree());
    state.move_down();
    state.back();
    assert!(state.at_root());
    assert_eq!(state.selected_index(), 1);
    assert_eq!(state.current().path, "/r");
}

#[test]
fn enter_on_a_file_changes_nothing() {
    let mut state = NavigationState::new(sample_tree());
    state.enter();
    assert!(state.at_root());
    assert_eq!(state.selected_index(), 0);
    assert_eq!(state.current().path, "/r");
}

#[test]
fn enter_opens_the_selected_directory() {
    let mut state = NavigationState::new(sample_tree());
    state.move_down();
    state.enter();
    assert!(!state.at_root());
    assert_eq!(state.levels_below_root(), 1);
    assert_eq!(state.current().path, "/r/sub");
    assert_eq!(state.selected_index(), 0);
    assert_eq!(state.entry_count(), 3);
    state.move_down();
    state.enter();
    assert_eq!(state.levels_below_root(), 2);
    assert_eq!(state.current().path, "/r/sub/inner");
    assert_eq!(state.root().path, "/r");
    state.back();
    assert_eq!(state.current().path, "/r/sub");
    assert_eq!(state.selected_index(), 0);
}

#[test]
fn enter_then_back_resets_the_cursor() {
    let mut state = NavigationState::new(sample_tree());
    state.move_down();
    assert_eq!(state.selected_index(), 1);
    state.enter();
    state.back();
    assert!(state.at_root());
    assert_eq!(state.current().path, "/r");
    assert_eq!(state.selected_index(), 0);
}

#[test]
fn empty_directory_ignores_moves_and_enter() {
    let mut state = NavigationState::new(sample_tree());
    state.move_down();
    state.move_down();
    state.enter();
    assert_eq!(state.current().path, "/r/empty");
    assert_eq!(state.entry_count(), 0);
    assert!(state.selected().is_none());
    state.move_down();
    state.move_up();
    state.enter();
    assert_eq!(state.selected_index(), 0);
    assert_eq!(state.levels_below_root(), 1);
    state.back();
    assert!(state.at_root());
}

#[test]
fn a_file_as_root_has_nothing_to_show() {
    let mut state = NavigationState::new(FileInfo::file("/f".to_string(), 3));
    assert_eq!(state.entry_count(), 0);
    state.enter();
    state.move_down();
    state.back();
    assert!(state.at_root());
    assert_eq!(state.selected_index(), 0);
}

#[test]
fn apply_runs_until_quit() {
    let mut state = NavigationState::new(sample_tree());
    assert!(state.apply(Event::Down));
    assert!(state.apply(Event::Enter));
    assert!(state.apply(Event::Other));
    assert_eq!(state.current().path, "/r/sub");
    assert!(state.apply(Event::Down));
    assert!(state.apply(Event::Up));
    assert!(state.apply(Event::Back));
    assert!(state.at_root());
    assert!(!state.apply(Event::Quit));
    assert!(state.at_root());
    assert_eq!(state.selected_index(), 0);
}

#[test]
fn keys_are_classified() {
    let k = keys();
    assert_eq!(classify_key(259, &k), Event::Up);
    assert_eq!(classify_key(258, &k), Event::Down);
    assert_eq!(classify_key(10, &k), Event::Enter);
    assert_eq!(classify_key(13, &k), Event::Enter);
    assert_eq!(classify_key('q' as i32, &k), Event::Quit);
    assert_eq!(classify_key(263, &k), Event::Back);
    assert_eq!(classify_key(127, &k), Event::Back);
    assert_eq!(classify_key(8, &k), Event::Back);
    assert_eq!(classify_key('x' as i32, &k), Event::Other);
    assert_eq!(classify_key(-1, &k), Event::Other);
    assert_eq!(classify_key('Q' as i32, &k), Event::Other);
}

#[test]
fn arrow_codes_win_over_characters() {
    let k = KeyCodes { up: 113, down: 10, backspace: 0 };
    assert_eq!(classify_key(113, &k), Event::Up);
    assert_eq!(classify_key(10, &k), Event::Down);
    assert_eq!(classify_key(0, &k), Event::Back);
}
