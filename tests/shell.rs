use hemp0x_core::error::CoreError;
use hemp0x_core::shell::{autocomplete, check_command, command_result, select_completions, sort_texts, ShellCommand, ShellState};

fn names(v: &[&str]) -> Vec<String> {
    v.iter().map(|s| s.to_string()).collect()
}

#[test]
fn cd_up_then_cd_shows_the_new_directory() {
    let mut state = ShellState::new("/home/user/projects".to_string());
    match state.plan("cd ..", false).unwrap() {
        ShellCommand::ChangeDirectory(d) => assert_eq!(d, ".."),
        other => panic!("expected a change of directory, got {:?}", other),
    }
    let r = state.change_directory(Some("/home/user".to_string()), "/home/user/projects/..");
    assert_eq!(r.unwrap(), "/home/user");
    assert_eq!(state.cwd, "/home/user");
    match state.plan("cd", false).unwrap() {
        ShellCommand::ShowDirectory(d) => assert_eq!(d, "/home/user"),
        other => panic!("expected the working directory, got {:?}", other),
    }
}

#[test]
fn cd_to_missing_directory_keeps_state() {
    let mut state = ShellState::new("/tmp".to_string());
    let r = state.change_directory(None, "/tmp/nowhere");
    match r {
        Err(CoreError::InvalidArgument { message }) => assert_eq!(message, "Directory not found: /tmp/nowhere"),
        other => panic!("expected an error, got {:?}", other),
    }
    assert_eq!(state.cwd, "/tmp");
}

#[test]
fn empty_command_is_refused() {
    let state = ShellState::new("/".to_string());
    assert!(matches!(state.plan("   ", false), Err(CoreError::InvalidArgument { .. })));
}

#[test]
fn cd_forms() {
    let state = ShellState::new("C:\\Users".to_string());
    let dir = |line: &str, windows: bool| match state.plan(line, windows).unwrap() {
        ShellCommand::ChangeDirectory(d) => format!("change {}", d),
        ShellCommand::ShowDirectory(d) => format!("show {}", d),
        ShellCommand::Execute(c) => format!("run {}", c),
    };
    assert_eq!(dir("CD /D D:\\data", true), "change D:\\data");
    assert_eq!(dir("cd \"My Files\"", false), "change My Files");
    assert_eq!(dir("cd\tlogs", false), "change logs");
    assert_eq!(dir("  cd   ", false), "show C:\\Users");
    assert_eq!(dir("pwd", true), "show C:\\Users");
    assert_eq!(dir("pwd", false), "run pwd");
    assert_eq!(dir("cdx", false), "run cdx");
    assert_eq!(dir("cd \"\"", false), "change ");
}

#[test]
fn windows_idioms_are_rewritten() {
    let state = ShellState::new("C:\\".to_string());
    let run = |line: &str| match state.plan(line, true).unwrap() {
        ShellCommand::Execute(c) => c,
        other => panic!("expected a command, got {:?}", other),
    };
    assert_eq!(run("ls"), "dir");
    assert_eq!(run("ls  logs "), "dir logs");
    assert_eq!(run("cat a.txt"), "type a.txt");
    assert_eq!(run("rm -rf build"), "rmdir /s /q build");
    assert_eq!(run("rm -r build"), "rmdir /s /q build");
    assert_eq!(run("rm a.txt"), "del /q a.txt");
    assert_eq!(run("echo hi"), "echo hi");
    match state.plan("ls", false).unwrap() {
        ShellCommand::Execute(c) => assert_eq!(c, "ls"),
        other => panic!("expected a command, got {:?}", other),
    }
}

#[test]
fn command_output_is_combined() {
    assert_eq!(command_result(true, Some(0), "", "").unwrap(), "(no output)");
    assert_eq!(command_result(true, Some(0), "a\n", "").unwrap(), "a");
    assert_eq!(command_result(true, Some(0), "out", "err\n").unwrap(), "out\nerr");
    assert_eq!(command_result(true, Some(0), "", "warn").unwrap(), "warn");
    match command_result(false, Some(2), "", " \n") {
        Err(CoreError::ProcessExitedNonZero { code, output }) => {
            assert_eq!(code, Some(2));
            assert_eq!(output, "Command failed");
        }
        other => panic!("expected a failure, got {:?}", other),
    }
    match command_result(false, None, "partial", "boom\n") {
        Err(CoreError::ProcessExitedNonZero { code, output }) => {
            assert_eq!(code, None);
            assert_eq!(output, "partial\nboom");
        }
        other => panic!("expected a failure, got {:?}", other),
    }
}

#[test]
fn autocomplete_prefix_re() {
    let dir = names(&["readme.txt", "report.csv", "other.txt"]);
    assert_eq!(autocomplete("cat re", &dir, false), names(&["readme.txt", "report.csv"]));
}

#[test]
fn autocomplete_sorts_and_handles_quotes() {
    let dir = names(&["zeta", "alpha", "Alpha", "beta"]);
    assert!(autocomplete("ls ", &dir, false).is_empty());
    assert_eq!(autocomplete("open \"al", &dir, false), names(&["alpha"]));
    assert_eq!(autocomplete("", &dir, false), names(&["Alpha", "alpha", "beta", "zeta"]));
}

#[test]
fn autocomplete_ignores_case_on_windows() {
    let dir = names(&["README.md", "Report.csv", "other.txt"]);
    assert_eq!(autocomplete("type RE", &dir, true), names(&["README.md", "Report.csv"]));
    assert_eq!(autocomplete("type RE", &dir, false), names(&["README.md"]));
}

#[test]
fn completions_from_pairs() {
    let cands = vec![("b".to_string(), "x1".to_string()), ("a".to_string(), "x2".to_string()), ("c".to_string(), "y".to_string())];
    assert_eq!(select_completions("x", &cands), names(&["a", "b"]));
    assert_eq!(sort_texts(names(&["b", "a", "b"])), names(&["a", "b", "b"]));
}

#[test]
fn blank_lines_are_refused_before_planning() {
    match check_command(" \t ") {
        Err(CoreError::InvalidArgument { message }) => assert_eq!(message, "Empty command"),
        other => panic!("expected an error, got {:?}", other),
    }
    assert!(check_command(" ls ").is_ok());
}
