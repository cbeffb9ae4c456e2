use rush::config::Config;
use rush::event::Outcome;
use rush::history::{HistoryDataActions, HistoryEntry};
use rush::rush::{KeyMode, Rush};

fn entry(cmd: &str) -> HistoryEntry {
    HistoryEntry { cmd: cmd.to_string(), last_run: 0, pass_count: 1, fail_count: 0 }
}

fn shell_with_history(cmds: &[&str]) -> Rush {
    let home = String::from("/home/user");
    let mut r = Rush::new(Config::with_home(&home), home, String::from("/w"));
    r.apply_history_action(HistoryDataActions::UpdateEntries(
        "/w".to_string(),
        cmds.iter().map(|c| entry(c)).collect(),
    ));
    r
}

#[test]
fn generate_lists_matching_commands_newest_first() {
    let mut r = shell_with_history(&["git status", "ls", "git log"]);
    r.parser.input = "git".to_string();
    r.generate();
    assert_eq!(r.suggest.suggestions, vec!["git log".to_string(), "git status".to_string()]);
}

#[test]
fn generate_looks_at_ten_newest_only() {
    let cmds: Vec<String> = (0..12).map(|i| format!("c{}", i)).collect();
    let refs: Vec<&str> = cmds.iter().map(|s| s.as_str()).collect();
    let mut r = shell_with_history(&refs);
    r.generate();
    assert_eq!(r.suggest.suggestions.len(), 10);
    assert_eq!(r.suggest.suggestions[0], "c11");
    assert_eq!(r.suggest.suggestions[9], "c2");
}

#[test]
fn generate_without_history_is_empty() {
    let mut r = shell_with_history(&[]);
    r.suggest.suggestions = vec!["stale".to_string()];
    r.generate();
    assert!(r.suggest.suggestions.is_empty());
}

#[test]
fn suggestions_start_with_input() {
    let mut r = shell_with_history(&["cargo build", "cat x", "cargo test", "cd"]);
    r.parser.input = "ca".to_string();
    r.generate();
    assert!(r.suggest.suggestions.iter().all(|s| s.starts_with("ca")));
    assert_eq!(r.suggest.suggestions.len(), 3);
}

#[test]
fn accept_suggestion_fills_prompt_and_runs() {
    let mut r = shell_with_history(&[]);
    r.suggest.suggestions = vec!["ls".to_string(), "pwd".to_string()];
    r.mode = KeyMode::Suggest;
    r.cursor.min_cursor = Some(2);
    assert!(r.can_accept(2));
    assert_eq!(r.accept_suggestion(2), Outcome::ShowAndExecute);
    assert_eq!(r.parser.input, "pwd");
    assert!(r.mode == KeyMode::Insert);
    assert!(r.cursor.min_cursor.is_none());
}

#[test]
fn missing_suggestions_are_refused() {
    let mut r = shell_with_history(&[]);
    r.suggest.suggestions = vec!["ls".to_string()];
    assert!(!r.can_accept(0));
    assert!(!r.can_accept(2));
    assert!(r.can_accept(1));
}

#[test]
fn suggest_mode_digits_pick_suggestions() {
    let mut r = shell_with_history(&[]);
    r.suggest.suggestions = (1..=10).map(|i| format!("s{}", i)).collect();
    r.mode = KeyMode::Suggest;
    assert_eq!(r.suggest_mode('3'), Outcome::ShowAndExecute);
    assert_eq!(r.parser.input, "s3");
    r.mode = KeyMode::Suggest;
    assert_eq!(r.suggest_mode('0'), Outcome::ShowAndExecute);
    assert_eq!(r.parser.input, "s10");
}

#[test]
fn suggest_mode_other_keys_are_ignored() {
    let mut r = shell_with_history(&[]);
    r.mode = KeyMode::Suggest;
    r.parser.input = "keep".to_string();
    assert_eq!(r.suggest_mode('x'), Outcome::Redraw);
    assert_eq!(r.parser.input, "keep");
    assert!(r.mode == KeyMode::Suggest);
}

#[test]
fn scroll_makes_room_for_ten_rows() {
    assert_eq!(Rush::suggestion_scroll(40, 35), 5);
    assert_eq!(Rush::suggestion_scroll(40, 30), 0);
    assert_eq!(Rush::suggestion_scroll(40, 40), 10);
}
