use rush::config::Config;
use rush::error::Error;

#[test]
fn config_places_data_under_home() {
    let home = "/home/user".to_string();
    let cfg = Config::with_home(&home);
    assert_eq!(cfg.data_refresh_rest_millis, 250);
    assert_eq!(cfg.data_dir, "/home/user/.rush");
    assert_eq!(Config::data_dir(&home), "/home/user/.rush");
    assert_eq!(cfg.hist_dir(), "/home/user/.rush/history");
}

#[test]
fn error_from_text() {
    let e: Error = Error::from("boom");
    assert_eq!(e.msg, "boom");
}

#[test]
fn error_from_unclosed_quote() {
    let parse_error = shell_words::split("echo 'a").unwrap_err();
    let e: Error = Error::from(parse_error);
    assert_eq!(e.msg, "missing closing quote");
}
