use rush::config::Config;
use rush::event::{KeyCode, KeyModifiers, Outcome, TermEvent};
use rush::history::{HistoryDataActions, HistoryEntry};
use rush::rush::{KeyMode, Rush};

fn editing(input: &str) -> Rush {
    let home = String::from("/home/user");
    let mut r = Rush::new(Config::with_home(&home), home, String::from("/w"));
    r.parser.input = input.to_string();
    r.cursor.min_cursor = Some(4);
    r.cursor.max_cursor = Some(4 + input.len() as u16);
    r.cursor.cursor_location = Some(4 + input.len() as u16);
    r
}

fn key(code: KeyCode) -> TermEvent {
    TermEvent::Key { code, modifiers: KeyModifiers::Plain, press: true }
}

fn ctrl(c: char) -> TermEvent {
    TermEvent::Key { code: KeyCode::Char(c), modifiers: KeyModifiers::Control, press: true }
}

#[test]
fn typing_appends_characters() {
    let mut r = editing("l");
    assert!(r.can_handle_event(&key(KeyCode::Char('s'))));
    assert_eq!(r.handle_event(key(KeyCode::Char('s'))), Outcome::Redraw);
    assert_eq!(r.parser.input, "ls");
    let shifted = TermEvent::Key { code: KeyCode::Char('A'), modifiers: KeyModifiers::Shift, press: true };
    assert_eq!(r.handle_event(shifted), Outcome::Redraw);
    assert_eq!(r.parser.input, "lsA");
}

#[test]
fn paste_appends_text() {
    let mut r = editing("echo ");
    let ev = TermEvent::Paste("hi".to_string());
    assert!(r.can_handle_event(&ev));
    assert_eq!(r.handle_event(ev), Outcome::Redraw);
    assert_eq!(r.parser.input, "echo hi");
}

#[test]
fn enter_executes() {
    let mut r = editing("ls");
    assert_eq!(r.handle_event(key(KeyCode::Enter)), Outcome::Execute);
    assert_eq!(r.parser.input, "ls");
}

#[test]
fn releases_and_other_events_are_ignored() {
    let mut r = editing("ls");
    let release = TermEvent::Key { code: KeyCode::Char('x'), modifiers: KeyModifiers::Plain, press: false };
    assert_eq!(r.handle_event(release), Outcome::Continue);
    assert_eq!(r.handle_event(TermEvent::Other), Outcome::Continue);
    assert_eq!(r.handle_event(key(KeyCode::Other)), Outcome::Continue);
    assert_eq!(r.parser.input, "ls");
}

#[test]
fn arrows_move_cursor_and_history() {
    let mut r = editing("ab");
    assert_eq!(r.handle_event(key(KeyCode::Left)), Outcome::Redraw);
    assert_eq!(r.cursor.cursor_location, Some(5));
    assert_eq!(r.handle_event(key(KeyCode::Right)), Outcome::Redraw);
    assert_eq!(r.cursor.cursor_location, Some(6));
    r.apply_history_action(HistoryDataActions::UpdateEntries(
        "/w".to_string(),
        vec![HistoryEntry { cmd: "make".to_string(), last_run: 0, pass_count: 1, fail_count: 0 }],
    ));
    assert_eq!(r.handle_event(key(KeyCode::Up)), Outcome::Redraw);
    assert_eq!(r.parser.input, "make");
    assert_eq!(r.handle_event(key(KeyCode::Down)), Outcome::Redraw);
    assert_eq!(r.parser.input, "");
}

#[test]
fn backspace_key_deletes() {
    let mut r = editing("ab");
    assert_eq!(r.handle_event(key(KeyCode::Backspace)), Outcome::Redraw);
    assert_eq!(r.parser.input, "a");
}

#[test]
fn control_s_enters_suggestion_mode_and_esc_leaves() {
    let mut r = editing("");
    assert_eq!(r.handle_event(ctrl('s')), Outcome::Redraw);
    assert!(r.mode == KeyMode::Suggest);
    assert_eq!(r.handle_event(key(KeyCode::Esc)), Outcome::Redraw);
    assert!(r.mode == KeyMode::Insert);
}

#[test]
fn control_d_exits() {
    let mut r = editing("");
    assert_eq!(r.handle_event(ctrl('d')), Outcome::Exit);
    assert_eq!(r.shortcut(KeyCode::Char('d'), KeyModifiers::Control), Outcome::Exit);
}

#[test]
fn other_shortcuts_only_redraw() {
    let mut r = editing("x");
    assert_eq!(r.shortcut(KeyCode::Char('q'), KeyModifiers::Control), Outcome::Redraw);
    assert_eq!(r.shortcut(KeyCode::Char('s'), KeyModifiers::Other), Outcome::Redraw);
    assert!(r.mode == KeyMode::Insert);
    assert_eq!(r.parser.input, "x");
}

#[test]
fn digits_in_suggestion_mode_accept() {
    let mut r = editing("");
    r.suggest.suggestions = vec!["ls".to_string()];
    r.mode = KeyMode::Suggest;
    assert!(r.can_handle_event(&key(KeyCode::Char('1'))));
    assert!(!r.can_handle_event(&key(KeyCode::Char('2'))));
    assert_eq!(r.handle_event(key(KeyCode::Char('1'))), Outcome::ShowAndExecute);
    assert_eq!(r.parser.input, "ls");
    assert!(r.mode == KeyMode::Insert);
}

#[test]
fn function_keys_accept() {
    let mut r = editing("");
    r.suggest.suggestions = vec!["ls".to_string(), "pwd".to_string()];
    assert!(!r.can_handle_event(&key(KeyCode::F(3))));
    assert_eq!(r.handle_event(key(KeyCode::F(2))), Outcome::ShowAndExecute);
    assert_eq!(r.parser.input, "pwd");
    assert_eq!(r.fn_key(1), Outcome::ShowAndExecute);
    assert_eq!(r.parser.input, "ls");
}

#[test]
fn events_that_would_fail_are_refused() {
    let mut r = editing("ab");
    r.cursor.clear();
    assert!(!r.can_handle_event(&key(KeyCode::Char('x'))));
    assert!(!r.can_handle_event(&key(KeyCode::Left)));
    assert!(!r.can_handle_event(&TermEvent::Paste("y".to_string())));
    assert!(r.can_handle_event(&key(KeyCode::Enter)));
    assert!(r.can_handle_event(&ctrl('x')));
}
