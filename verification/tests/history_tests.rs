use rush::config::Config;
use rush::event::Outcome;
use rush::history::{
    history_file_name, history_path_from_file_name, HistoryDataActions, HistoryEntry, HistoryMap,
};
use rush::rush::Rush;

fn entry(cmd: &str) -> HistoryEntry {
    HistoryEntry { cmd: cmd.to_string(), last_run: 7, pass_count: 1, fail_count: 0 }
}

fn shell_in(pwd: &str) -> Rush {
    let home = String::from("/home/user");
    Rush::new(Config::with_home(&home), home, String::from(pwd))
}

fn shell_with_history(cmds: &[&str]) -> Rush {
    let mut r = shell_in("/tmp");
    r.apply_history_action(HistoryDataActions::UpdateEntries(
        "/tmp".to_string(),
        cmds.iter().map(|c| entry(c)).collect(),
    ));
    r
}

#[test]
fn file_name_is_url_safe_base64_of_the_path() {
    assert_eq!(history_file_name("/tmp"), "L3RtcA==");
    assert_eq!(history_file_name("/home/user"), "L2hvbWUvdXNlcg==");
    // the URL-safe alphabet writes '-' and '_' where the standard one has '+' and '/'
    assert_eq!(history_file_name("~~~"), "fn5-");
    assert_eq!(history_file_name("?>?"), "Pz4_");
    assert_eq!(history_file_name(""), "");
}

#[test]
fn file_name_round_trips() {
    for p in ["/tmp", "/home/user/src", "", "/é/ü"] {
        let name = history_file_name(p);
        assert_eq!(history_path_from_file_name(&name), Some(p.to_string()));
    }
}

#[test]
fn foreign_file_names_are_rejected() {
    assert_eq!(history_path_from_file_name("L3RtcA"), None);
    assert_eq!(history_path_from_file_name("!!!!"), None);
    assert_eq!(history_path_from_file_name("L3RtcB=="), None);
    // valid base64 of bytes that are not UTF-8
    assert_eq!(history_path_from_file_name("_w=="), None);
}

#[test]
fn map_insert_get_remove() {
    let mut m = HistoryMap::new();
    assert!(m.get("/a").is_none());
    m.insert("/a".to_string(), vec![entry("ls")]);
    m.insert("/b".to_string(), vec![entry("pwd"), entry("cd")]);
    assert_eq!(m.get("/a").unwrap().len(), 1);
    assert_eq!(m.get("/b").unwrap().len(), 2);
    m.insert("/a".to_string(), vec![]);
    assert_eq!(m.get("/a").unwrap().len(), 0);
    let removed = m.remove("/b").unwrap();
    assert_eq!(removed[1].cmd, "cd");
    assert!(m.get("/b").is_none());
    assert!(m.remove("/b").is_none());
}

#[test]
fn add_input_appends_new_command() {
    let mut r = shell_in("/tmp");
    r.parser.input = "ls".to_string();
    r.history.idx = Some(3);
    let path = r.hist_add_input_at(42);
    assert_eq!(path, "/Users/parth/.rush/history/L3RtcA==");
    assert_eq!(r.history.idx, None);
    let h = r.history.entries.get("/tmp").unwrap();
    assert_eq!(h.len(), 1);
    assert_eq!(h[0].cmd, "ls");
    assert_eq!(h[0].last_run, 42);
    assert_eq!(h[0].pass_count, 1);
    assert_eq!(h[0].fail_count, 0);
}

#[test]
fn add_input_counts_repeated_command() {
    let mut r = shell_with_history(&["ls", "make"]);
    r.parser.input = "ls".to_string();
    r.hist_add_input_at(100);
    r.hist_add_input_at(200);
    let h = r.history.entries.get("/tmp").unwrap();
    assert_eq!(h.len(), 2);
    assert_eq!(h[0].cmd, "ls");
    assert_eq!(h[0].pass_count, 3);
    assert_eq!(h[0].last_run, 200);
    assert_eq!(h[1].cmd, "make");
    assert_eq!(h[1].pass_count, 1);
}

#[test]
fn add_input_now_records_the_run() {
    let mut r = shell_in("/tmp");
    r.parser.input = "echo".to_string();
    let path = r.hist_add_input();
    assert_eq!(path, "/Users/parth/.rush/history/L3RtcA==");
    assert_eq!(r.history.entries.get("/tmp").unwrap()[0].cmd, "echo");
}

#[test]
fn prev_walks_back_and_stops_at_oldest() {
    let mut r = shell_with_history(&["a", "b", "c"]);
    r.hist_prev();
    assert_eq!(r.history.idx, Some(2));
    assert_eq!(r.parser.input, "c");
    assert!(r.cursor.cursor_location.is_none());
    r.hist_prev();
    assert_eq!(r.parser.input, "b");
    r.hist_prev();
    assert_eq!(r.parser.input, "a");
    r.hist_prev();
    assert_eq!(r.history.idx, Some(0));
    assert_eq!(r.parser.input, "a");
}

#[test]
fn next_undoes_prev() {
    let mut r = shell_with_history(&["a", "b", "c"]);
    r.history.idx = Some(2);
    r.hist_prev();
    assert_eq!(r.parser.input, "b");
    r.hist_next();
    assert_eq!(r.history.idx, Some(2));
    assert_eq!(r.parser.input, "c");
}

#[test]
fn prev_undoes_next() {
    let mut r = shell_with_history(&["a", "b", "c"]);
    r.history.idx = Some(0);
    r.hist_next();
    assert_eq!(r.parser.input, "b");
    r.hist_prev();
    assert_eq!(r.history.idx, Some(0));
    assert_eq!(r.parser.input, "a");
}

#[test]
fn next_past_newest_empties_prompt() {
    let mut r = shell_with_history(&["a", "b"]);
    r.parser.input = "typed".to_string();
    r.hist_prev();
    r.hist_next();
    assert_eq!(r.history.idx, None);
    assert_eq!(r.parser.input, "");
}

#[test]
fn stepping_without_history_changes_nothing() {
    let mut r = shell_in("/nowhere");
    r.parser.input = "x".to_string();
    r.cursor.cursor_location = Some(4);
    r.hist_prev();
    r.hist_next();
    assert_eq!(r.parser.input, "x");
    assert_eq!(r.history.idx, None);
    assert_eq!(r.cursor.cursor_location, Some(4));
}

#[test]
fn next_without_shown_entry_changes_nothing() {
    let mut r = shell_with_history(&["a"]);
    r.parser.input = "x".to_string();
    r.hist_next();
    assert_eq!(r.parser.input, "x");
    assert_eq!(r.history.idx, None);
}

#[test]
fn history_step_bounds() {
    let mut r = shell_with_history(&["a"]);
    r.history.idx = Some(5);
    assert!(!r.can_hist_prev());
    assert!(!r.can_hist_next());
    r.history.idx = Some(0);
    assert!(r.can_hist_prev());
    assert!(r.can_hist_next());
    assert_eq!(r.dir_history_len(), 1);
}

#[test]
fn do_hist_puts_suggestion_in_prompt_and_asks_to_run() {
    let mut r = shell_in("/tmp");
    r.suggest.suggestions = vec!["ls".to_string(), "make".to_string()];
    r.cursor.min_cursor = Some(3);
    assert_eq!(r.do_hist(1), Outcome::Execute);
    assert_eq!(r.parser.input, "make");
    assert!(r.cursor.min_cursor.is_none());
}

#[test]
fn entries_compare_by_all_fields() {
    assert!(entry("ls") == entry("ls"));
    assert!(entry("ls") != entry("pwd"));
    let mut e = entry("ls");
    e.pass_count = 2;
    assert!(e != entry("ls"));
}
