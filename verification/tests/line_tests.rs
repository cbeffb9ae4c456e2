use rush::config::Config;
use rush::event::Outcome;
use rush::history::{HistoryDataActions, HistoryEntry};
use rush::line::goes_on;
use rush::parser::{CommandPlan, SpawnOutcome};
use rush::rush::{KeyMode, Rush};

fn shell_at(pwd: &str, input: &str) -> Rush {
    let home = String::from("/home/user");
    let mut r = Rush::new(Config::with_home(&home), home, String::from(pwd));
    r.parser.input = String::from(input);
    r
}

/// Runs the current line, taking each program's status from `statuses` in turn and each
/// `cd` into a directory as found; gives the names of the commands that ran.
fn run_line(r: &mut Rush, statuses: &[i32]) -> Vec<String> {
    let mut run = r.parse(true).unwrap();
    let mut ran = Vec::new();
    let mut programs = statuses.iter();
    while let Some(cmd) = run.next_command() {
        ran.push(cmd.name.clone());
        let plan = r.command(cmd);
        let status = match &plan {
            CommandPlan::ChangeDir(dest) => {
                let canonical = dest.clone();
                r.finish_cd(canonical);
                plan.status().unwrap()
            }
            CommandPlan::Run { .. } => Rush::spawn_status(SpawnOutcome::Exited(Some(*programs.next().unwrap()))),
            _ => plan.status().unwrap(),
        };
        run.report(status);
    }
    assert!(run.over());
    ran
}

#[test]
fn only_status_zero_goes_on() {
    assert!(goes_on(0));
    assert!(!goes_on(1));
    assert!(!goes_on(-1));
    assert!(!goes_on(127));
}

#[test]
fn parse_without_running_gives_no_run() {
    let mut r = shell_at("/tmp", "ls");
    assert!(r.parse(false).is_none());
    assert!(!r.parser.execute);
}

#[test]
fn parse_to_run_gives_fresh_run_of_the_commands() {
    let mut r = shell_at("/tmp", "make && ./run fast");
    let run = r.parse(true).unwrap();
    assert!(r.parser.execute);
    assert_eq!(run.commands.len(), 2);
    assert_eq!(run.commands[0].name, "make");
    assert_eq!(run.commands[1].name, "./run");
    assert_eq!(run.commands[1].args[0].val, "fast");
    assert_eq!(run.next, 0);
    assert!(!run.stopped);
    assert!(!run.over());
}

#[test]
fn run_hands_out_commands_in_order() {
    let mut r = shell_at("/tmp", "a && b && c");
    let mut run = r.parse(true).unwrap();
    assert_eq!(run.next_command().unwrap().name, "a");
    run.report(0);
    assert_eq!(run.next_command().unwrap().name, "b");
    run.report(0);
    assert_eq!(run.next_command().unwrap().name, "c");
    run.report(0);
    assert!(run.next_command().is_none());
    assert!(run.over());
    assert!(!run.stopped);
    assert_eq!(run.next, 3);
}

#[test]
fn run_stops_at_first_failure() {
    let mut r = shell_at("/tmp", "a && b && c");
    let mut run = r.parse(true).unwrap();
    run.report(0);
    run.report(2);
    assert!(run.stopped);
    assert!(run.over());
    assert!(run.next_command().is_none());
    assert_eq!(run.next, 2);
}

#[test]
fn planned_statuses() {
    assert_eq!(CommandPlan::Done(0).status(), Some(0));
    assert_eq!(CommandPlan::TooManyCdArgs(vec!["a".to_string(), "b".to_string()]).status(), Some(1));
    assert_eq!(CommandPlan::ChangeDir("/tmp".to_string()).status(), Some(0));
    let run = CommandPlan::Run { name: "ls".to_string(), args: vec![], dir: "/".to_string() };
    assert_eq!(run.status(), None);
}

#[test]
fn cd_statuses_follow_arguments() {
    let mut r = shell_at("/tmp", "cd a b");
    let cmd = r.parse(true).unwrap().next_command().unwrap();
    assert_eq!(r.command(cmd).status(), Some(1));
    let mut r = shell_at("/tmp", "cd");
    let cmd = r.parse(true).unwrap().next_command().unwrap();
    assert_eq!(r.command(cmd).status(), Some(0));
}

#[test]
fn finish_cd_takes_the_canonical_path() {
    let mut r = shell_at("/home/user/src", "cd ..");
    let cmd = r.parse(true).unwrap().next_command().unwrap();
    match r.command(cmd) {
        CommandPlan::ChangeDir(p) => assert_eq!(p, "/home/user/src/.."),
        _ => panic!("expected a change of directory"),
    }
    r.finish_cd("/home/user".to_string());
    assert_eq!(r.pwd, "/home/user");
    assert_eq!(r.parser.input, "cd ..");
}

#[test]
fn finish_line_records_and_resets() {
    let mut r = shell_at("/tmp", "ls -a");
    r.parse(true);
    r.history.idx = Some(0);
    r.cursor.min_cursor = Some(4);
    assert!(r.can_add_input());
    let path = r.finish_line();
    assert_eq!(path, "/Users/parth/.rush/history/L3RtcA==");
    assert_eq!(r.parser.input, "");
    assert_eq!(r.parser.output.input, "ls -a");
    assert!(r.cursor.min_cursor.is_none());
    assert_eq!(r.history.idx, None);
    let h = r.history.entries.get("/tmp").unwrap();
    assert_eq!(h.len(), 1);
    assert_eq!(h[0].cmd, "ls -a");
    assert_eq!(h[0].pass_count, 1);
}

#[test]
fn running_a_line_stops_after_failure_and_records_it() {
    let mut r = shell_at("/tmp", "true && false && echo");
    let ran = run_line(&mut r, &[0, 1]);
    assert_eq!(ran, vec!["true".to_string(), "false".to_string()]);
    r.finish_line();
    assert_eq!(r.parser.output.input, "true && false && echo");
    assert_eq!(r.parser.input, "");
    assert_eq!(r.history.entries.get("/tmp").unwrap()[0].cmd, "true && false && echo");
}

#[test]
fn running_a_line_with_cd_records_it_in_the_new_directory() {
    let mut r = shell_at("/tmp", "cd /var && ls");
    let ran = run_line(&mut r, &[0]);
    assert_eq!(ran, vec!["cd".to_string(), "ls".to_string()]);
    assert_eq!(r.pwd, "/var");
    r.finish_line();
    assert!(r.history.entries.get("/tmp").is_none());
    assert_eq!(r.history.entries.get("/var").unwrap()[0].cmd, "cd /var && ls");
}

#[test]
fn accepted_suggestion_is_run_and_recorded() {
    let mut r = shell_at("/tmp", "");
    r.suggest.suggestions = vec!["ls".to_string(), "pwd".to_string()];
    r.mode = KeyMode::Suggest;
    assert_eq!(r.accept_suggestion(2), Outcome::ShowAndExecute);
    let ran = run_line(&mut r, &[0]);
    assert_eq!(ran, vec!["pwd".to_string()]);
    r.finish_line();
    assert_eq!(r.parser.output.input, "pwd");
    assert_eq!(r.parser.input, "");
    assert!(r.mode == KeyMode::Insert);
    assert_eq!(r.history.idx, None);
    assert_eq!(r.history.entries.get("/tmp").unwrap()[0].cmd, "pwd");
}

#[test]
fn picked_history_is_run_and_recorded() {
    let mut r = shell_at("/tmp", "");
    r.apply_history_action(HistoryDataActions::UpdateEntries(
        "/tmp".to_string(),
        vec![HistoryEntry { cmd: "make".to_string(), last_run: 1, pass_count: 1, fail_count: 0 }],
    ));
    r.suggest.suggestions = vec!["ls".to_string(), "make".to_string()];
    assert_eq!(r.do_hist(1), Outcome::Execute);
    let ran = run_line(&mut r, &[0]);
    assert_eq!(ran, vec!["make".to_string()]);
    r.finish_line();
    assert_eq!(r.parser.output.input, "make");
    assert_eq!(r.parser.input, "");
    let h = r.history.entries.get("/tmp").unwrap();
    assert_eq!(h.len(), 1);
    assert_eq!(h[0].pass_count, 2);
}

#[test]
fn finished_line_is_remembered_once() {
    let mut r = shell_at("/tmp", "ls");
    r.finish_line();
    r.parser.input = "ls".to_string();
    r.finish_line();
    r.parser.input = "pwd".to_string();
    r.finish_line();
    let h = r.history.entries.get("/tmp").unwrap();
    assert_eq!(h.len(), 2);
    assert_eq!(h[0].cmd, "ls");
    assert_eq!(h[0].pass_count, 2);
    assert_eq!(h[1].cmd, "pwd");
}
