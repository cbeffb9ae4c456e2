use rush::config::Config;
use rush::paths::{path_components, path_push};
use rush::rush::Rush;

fn shell(home: &str, pwd: &str) -> Rush {
    let home = String::from(home);
    Rush::new(Config::with_home(&home), home, String::from(pwd))
}

/// A shell whose prompt ends at column 10, with `input` typed and the cursor at its end.
fn editing(input: &str) -> Rush {
    let mut r = shell("/home/user", "/home/user");
    r.parser.input = input.to_string();
    r.note_input_start(10);
    r.cursor.max_cursor = Some(10 + input.len() as u16);
    r.note_cursor_location(10 + input.len() as u16);
    r
}

#[test]
fn path_push_follows_pathbuf() {
    assert_eq!(path_push(&"/home/user".to_string(), ".rush"), "/home/user/.rush");
    assert_eq!(path_push(&"/home/user/".to_string(), "x"), "/home/user/x");
    assert_eq!(path_push(&"".to_string(), "x"), "x");
    assert_eq!(path_push(&"/home/user".to_string(), "/etc"), "/etc");
}

#[test]
fn path_components_follow_path_iter() {
    assert_eq!(path_components("/home//user/./src/"), vec!["/", "home", "user", "src"]);
    assert_eq!(path_components("./a/./b"), vec![".", "a", "b"]);
    assert_eq!(path_components("a/../b"), vec!["a", "..", "b"]);
    assert_eq!(path_components(""), Vec::<String>::new());
    assert_eq!(path_components("/"), vec!["/"]);
}

#[test]
fn shortened_home_inside_home() {
    assert_eq!(shell("/home/user", "/home/user/src/rush").shortened_home(), Some("~/src/rush".to_string()));
}

#[test]
fn shortened_home_at_home() {
    assert_eq!(shell("/home/user", "/home/user").shortened_home(), Some("~".to_string()));
    assert_eq!(shell("/home/user/", "/home/user").shortened_home(), Some("~".to_string()));
}

#[test]
fn shortened_home_outside_home() {
    assert_eq!(shell("/home/user", "/tmp").shortened_home(), None);
    assert_eq!(shell("/home/user", "/home").shortened_home(), None);
    assert_eq!(shell("/home/user", "/home/username").shortened_home(), None);
}

#[test]
fn reset_prompt_clears_line_and_cursor() {
    let mut r = editing("abc");
    r.reset_prompt();
    assert_eq!(r.parser.input, "");
    assert!(r.cursor.min_cursor.is_none());
    assert!(r.cursor.cursor_location.is_none());
    assert!(r.cursor.max_cursor.is_none());
}

#[test]
fn append_char_inserts_at_cursor() {
    let mut r = editing("ac");
    r.cursor.cursor_location = Some(11);
    assert!(r.can_append_char());
    r.append_char('b');
    assert_eq!(r.parser.input, "abc");
    assert_eq!(r.cursor.cursor_location, Some(12));
    assert_eq!(r.cursor.max_cursor, Some(13));
    assert_eq!(r.cursor.min_cursor, Some(10));
}

#[test]
fn append_input_inserts_and_moves_per_byte() {
    let mut r = editing("ad");
    r.cursor.cursor_location = Some(11);
    assert!(r.can_append_input("bc"));
    r.append_input("bc");
    assert_eq!(r.parser.input, "abcd");
    assert_eq!(r.cursor.cursor_location, Some(13));
    assert_eq!(r.cursor.max_cursor, Some(14));
}

#[test]
fn backspace_removes_before_cursor() {
    let mut r = editing("abc");
    assert!(r.can_backspace());
    r.backspace();
    assert_eq!(r.parser.input, "ab");
    assert_eq!(r.cursor.cursor_location, Some(12));
    assert_eq!(r.cursor.max_cursor, Some(12));
}

#[test]
fn backspace_on_empty_line_does_nothing() {
    let mut r = editing("");
    r.backspace();
    assert_eq!(r.parser.input, "");
    assert_eq!(r.cursor.cursor_location, Some(10));
    assert_eq!(r.cursor.max_cursor, Some(10));
}

#[test]
fn backspace_undoes_append_char() {
    let mut r = editing("xy");
    r.cursor.cursor_location = Some(11);
    let before_cursor = (r.cursor.min_cursor, r.cursor.cursor_location, r.cursor.max_cursor);
    r.append_char('q');
    r.backspace();
    assert_eq!(r.parser.input, "xy");
    assert_eq!((r.cursor.min_cursor, r.cursor.cursor_location, r.cursor.max_cursor), before_cursor);
}

#[test]
fn edits_at_start_of_line_are_refused() {
    let mut r = editing("abc");
    r.cursor.cursor_location = Some(10);
    assert!(!r.can_backspace());
    r.cursor.cursor_location = Some(9);
    assert!(!r.can_append_char());
    let mut cleared = editing("abc");
    cleared.cursor.clear();
    assert!(!cleared.can_append_char());
    assert!(!cleared.can_append_input("x"));
}

#[test]
fn non_boundary_positions_are_refused() {
    let mut r = editing("é");
    r.cursor.cursor_location = Some(11);
    assert!(!r.can_append_char());
    assert!(!r.can_backspace());
    r.cursor.cursor_location = Some(12);
    assert!(r.can_append_char());
}

#[test]
fn prompt_columns_are_noted_once() {
    let mut r = shell("/home/user", "/home/user");
    r.note_input_start(5);
    r.note_input_start(9);
    assert_eq!(r.cursor.min_cursor, Some(5));
    assert_eq!(r.cursor.max_cursor, Some(5));
    r.note_cursor_location(7);
    r.note_cursor_location(8);
    assert_eq!(r.cursor.cursor_location, Some(7));
}

#[test]
fn cursor_moves_within_bounds() {
    let mut r = editing("abc");
    r.cursor_move_right(false);
    assert_eq!(r.cursor.cursor_location, Some(13));
    r.cursor_move_left(false);
    assert_eq!(r.cursor.cursor_location, Some(12));
    r.cursor_move_right(false);
    assert_eq!(r.cursor.cursor_location, Some(13));
    r.cursor.cursor_location = Some(10);
    r.cursor_move_left(false);
    assert_eq!(r.cursor.cursor_location, Some(10));
}

#[test]
fn cursor_left_then_right_returns() {
    let mut r = editing("abc");
    r.cursor.cursor_location = Some(12);
    r.cursor_move_left(false);
    r.cursor_move_right(false);
    assert_eq!(r.cursor.cursor_location, Some(12));
}

#[test]
fn cursor_bounds_move_when_asked() {
    let mut r = editing("abc");
    r.cursor_move_right(true);
    assert_eq!(r.cursor.max_cursor, Some(14));
    assert_eq!(r.cursor.cursor_location, Some(14));
    r.cursor_move_left(true);
    assert_eq!(r.cursor.max_cursor, Some(13));
    assert_eq!(r.cursor.cursor_location, Some(13));
}

#[test]
fn paste_does_what_typing_does() {
    let mut typed = editing("ad");
    typed.cursor.cursor_location = Some(11);
    let mut pasted = editing("ad");
    pasted.cursor.cursor_location = Some(11);
    for c in "bc".chars() {
        typed.append_char(c);
    }
    pasted.append_input("bc");
    assert_eq!(typed.parser.input, pasted.parser.input);
    assert_eq!(typed.cursor.min_cursor, pasted.cursor.min_cursor);
    assert_eq!(typed.cursor.cursor_location, pasted.cursor.cursor_location);
    assert_eq!(typed.cursor.max_cursor, pasted.cursor.max_cursor);
}

#[test]
fn pasting_nothing_changes_nothing() {
    let mut r = editing("ab");
    r.append_input("");
    assert_eq!(r.parser.input, "ab");
    assert_eq!(r.cursor.cursor_location, Some(12));
    assert_eq!(r.cursor.max_cursor, Some(12));
}

#[test]
fn tilde_expands_back_to_the_working_directory() {
    let r = shell("/home/user", "/home/user/src/rush");
    let short = r.shortened_home().unwrap();
    assert_eq!(short, "~/src/rush");
    let rest = short.strip_prefix("~/").unwrap();
    assert_eq!(path_push(&r.home, rest), r.pwd);
}
