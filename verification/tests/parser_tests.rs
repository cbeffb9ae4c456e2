use rush::config::Config;
use rush::parser::{CommandPlan, ParseProblem, SpawnOutcome};
use rush::rush::Rush;

fn shell_with_input(input: &str) -> Rush {
    let home = String::from("/home/user");
    let mut r = Rush::new(Config::with_home(&home), home, String::from("/home/user/src"));
    r.parser.input = String::from(input);
    r
}

fn arg_texts(r: &Rush, cmd: usize) -> Vec<String> {
    r.parser.output.commands[cmd].args.iter().map(|a| a.val.clone()).collect()
}

#[test]
fn parses_name_and_argument() {
    let r = shell_with_input("ls -la");
    let out = r.parse_fsm();
    assert_eq!(out.input, "ls -la");
    assert_eq!(out.commands.len(), 1);
    assert_eq!(out.commands[0].name, "ls");
    assert_eq!(out.commands[0].args.len(), 1);
    assert_eq!(out.commands[0].args[0].val, "-la");
    assert_eq!(out.commands[0].args[0].range, 3..6);
    assert!(!out.commands[0].background);
    assert!(out.problems.is_empty());
}

#[test]
fn leading_spaces_are_skipped() {
    let r = shell_with_input("   pwd");
    let out = r.parse_fsm();
    assert_eq!(out.commands[0].name, "pwd");
    assert!(out.commands[0].args.is_empty());
}

#[test]
fn double_quotes_keep_spaces() {
    let r = shell_with_input("echo \"a b\"");
    let out = r.parse_fsm();
    assert_eq!(out.commands[0].name, "echo");
    assert_eq!(out.commands[0].args.len(), 1);
    assert_eq!(out.commands[0].args[0].val, "a b");
    assert_eq!(out.commands[0].args[0].range, 5..9);
    assert!(out.problems.is_empty());
}

#[test]
fn unmatched_quote_is_reported() {
    let r = shell_with_input("echo \"abc");
    let out = r.parse_fsm();
    assert_eq!(out.commands[0].args[0].val, "abc");
    assert_eq!(out.problems, vec![ParseProblem::UnmatchedQuote(5)]);
}

#[test]
fn double_ampersand_separates_commands() {
    let r = shell_with_input("make && ./run fast");
    let out = r.parse_fsm();
    assert_eq!(out.commands.len(), 2);
    assert_eq!(out.commands[0].name, "make");
    assert_eq!(out.commands[1].name, "./run");
    assert_eq!(out.commands[1].args[0].val, "fast");
    assert_eq!(out.commands[1].args[0].range, 14..18);
    assert!(!out.commands[0].background);
    assert!(!out.commands[1].background);
}

#[test]
fn trailing_ampersand_runs_in_background() {
    let r = shell_with_input("sleep 1 &");
    let out = r.parse_fsm();
    assert_eq!(out.commands.len(), 1);
    assert!(out.commands[0].background);
    assert!(out.problems.is_empty());
}

#[test]
fn second_space_starts_an_argument() {
    let r = shell_with_input("ls  a");
    let out = r.parse_fsm();
    assert_eq!(out.commands[0].args[0].val, " a");
    assert_eq!(out.commands[0].args[0].range, 3..5);
}

#[test]
fn empty_input_gives_one_empty_command() {
    let r = shell_with_input("");
    let out = r.parse_fsm();
    assert_eq!(out.commands.len(), 1);
    assert_eq!(out.commands[0].name, "");
    assert!(out.problems.is_empty());
}

#[test]
fn parser_gives_up_on_env_assignment() {
    let r = shell_with_input("FOO=1 ls");
    assert!(r.try_parse_fsm().is_none());
}

#[test]
fn parser_gives_up_on_lone_ampersand() {
    let r = shell_with_input("a & b");
    assert!(r.try_parse_fsm().is_none());
}

#[test]
fn parse_reparses_only_changed_input() {
    let mut r = shell_with_input("git status");
    r.parse(false);
    assert!(!r.parser.execute);
    assert_eq!(r.parser.output.input, "git status");
    assert_eq!(r.parser.output.commands[0].name, "git");
    assert_eq!(arg_texts(&r, 0), vec!["status".to_string()]);
    r.parse(true);
    assert!(r.parser.execute);
    assert_eq!(r.parser.output.commands.len(), 1);
}

#[test]
fn cd_without_arguments_goes_home() {
    let mut r = shell_with_input("cd");
    r.parse(true);
    let cmd = r.parser.output.commands[0].clone();
    match r.command(cmd) {
        CommandPlan::Done(status) => assert_eq!(status, 0),
        _ => panic!("expected a finished cd"),
    }
    assert_eq!(r.pwd, "/home/user");
}

#[test]
fn cd_with_one_argument_moves_there() {
    let mut r = shell_with_input("cd lib");
    r.parse(true);
    let cmd = r.parser.output.commands[0].clone();
    match r.command(cmd) {
        CommandPlan::ChangeDir(p) => assert_eq!(p, "/home/user/src/lib"),
        _ => panic!("expected a change of directory"),
    }
    assert_eq!(r.pwd, "/home/user/src/lib");
}

#[test]
fn cd_to_absolute_path_replaces_directory() {
    let mut r = shell_with_input("cd /tmp");
    r.parse(true);
    let cmd = r.parser.output.commands[0].clone();
    match r.command(cmd) {
        CommandPlan::ChangeDir(p) => assert_eq!(p, "/tmp"),
        _ => panic!("expected a change of directory"),
    }
}

#[test]
fn cd_with_two_arguments_is_reported() {
    let mut r = shell_with_input("cd a b");
    r.parse(true);
    let cmd = r.parser.output.commands[0].clone();
    match r.command(cmd) {
        CommandPlan::TooManyCdArgs(v) => assert_eq!(v, vec!["a".to_string(), "b".to_string()]),
        _ => panic!("expected a report"),
    }
    assert_eq!(r.pwd, "/home/user/src");
}

#[test]
fn other_commands_run_in_working_directory() {
    let mut r = shell_with_input("grep -n foo");
    r.parse(true);
    let cmd = r.parser.output.commands[0].clone();
    match r.command(cmd) {
        CommandPlan::Run { name, args, dir } => {
            assert_eq!(name, "grep");
            assert_eq!(args, vec!["-n".to_string(), "foo".to_string()]);
            assert_eq!(dir, "/home/user/src");
        }
        _ => panic!("expected a program run"),
    }
}

#[test]
fn spawn_statuses() {
    assert_eq!(Rush::spawn_status(SpawnOutcome::Exited(Some(3))), 3);
    assert_eq!(Rush::spawn_status(SpawnOutcome::Exited(None)), -1);
    assert_eq!(Rush::spawn_status(SpawnOutcome::NotFound), 127);
    assert_eq!(Rush::spawn_status(SpawnOutcome::Failed), -2);
}

#[test]
fn joining_lines_with_and_joins_their_commands() {
    let first = shell_with_input("ls -a").parse_fsm();
    let second = shell_with_input("grep x y").parse_fsm();
    let joined = shell_with_input("ls -a && grep x y").parse_fsm();
    assert_eq!(joined.commands.len(), first.commands.len() + second.commands.len());
    assert_eq!(joined.commands[0].name, first.commands[0].name);
    assert_eq!(joined.commands[0].args[0].val, first.commands[0].args[0].val);
    assert_eq!(joined.commands[0].args[0].range, first.commands[0].args[0].range);
    assert_eq!(joined.commands[1].name, second.commands[0].name);
    for (j, s) in joined.commands[1].args.iter().zip(second.commands[0].args.iter()) {
        assert_eq!(j.val, s.val);
        // moved past "ls -a && ", nine characters
        assert_eq!(j.range.start, s.range.start + 9);
        assert_eq!(j.range.end, s.range.end + 9);
    }
    assert!(joined.problems.is_empty());
    assert!(joined.commands.iter().all(|c| !c.background));
}

#[test]
fn joined_line_keeps_the_second_lines_problems_moved_on() {
    let second = shell_with_input("echo \"ab").parse_fsm();
    let joined = shell_with_input("ls && echo \"ab").parse_fsm();
    assert_eq!(second.problems, vec![ParseProblem::UnmatchedQuote(5)]);
    assert_eq!(joined.problems, vec![ParseProblem::UnmatchedQuote(11)]);
}
