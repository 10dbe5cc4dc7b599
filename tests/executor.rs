use native_lbb::executor::{finish_command, plan_command, split_lines, CommandPlan, ProcessReport};

fn finished(stdout: &str, stderr: &str, success: bool, code: Option<i32>) -> ProcessReport {
    ProcessReport::Finished {
        stdout: stdout.to_string(),
        stderr: stderr.to_string(),
        success,
        code,
    }
}

#[test]
fn plan_parse_error_is_one_line() {
    match plan_command("echo 'unterminated") {
        CommandPlan::Reply(lines) => {
            assert_eq!(lines, vec!["ERROR(parse): unterminated quoted string".to_string()])
        }
        CommandPlan::Run { .. } => panic!("expected a reply"),
    }
}

#[test]
fn plan_blank_line_is_one_empty_line() {
    match plan_command("   ") {
        CommandPlan::Reply(lines) => assert_eq!(lines, vec![String::new()]),
        CommandPlan::Run { .. } => panic!("expected a reply"),
    }
}

#[test]
fn plan_runs_first_word_with_the_rest() {
    match plan_command("ls -l \"my dir\"") {
        CommandPlan::Run { program, args } => {
            assert_eq!(program, "ls");
            assert_eq!(args, vec!["-l".to_string(), "my dir".to_string()]);
        }
        CommandPlan::Reply(_) => panic!("expected a run"),
    }
}

#[test]
fn finish_missing_executable() {
    let r = finish_command(&ProcessReport::SpawnFailed {
        reason: "No such file or directory (os error 2)".to_string(),
    });
    assert_eq!(r, vec!["ERROR(exec): No such file or directory (os error 2)".to_string()]);
}

#[test]
fn finish_success_lines() {
    let r = finish_command(&finished("a\nb\n", "", true, Some(0)));
    assert_eq!(r, vec!["a".to_string(), "b".to_string()]);
}

#[test]
fn finish_failure_appends_exit_line() {
    let r = finish_command(&finished("out\n", "  boom \n", false, Some(3)));
    assert_eq!(r, vec!["out".to_string(), "ERROR(exit=3): boom".to_string()]);
}

#[test]
fn finish_failure_without_code() {
    let r = finish_command(&finished("", "killed", false, None));
    assert_eq!(r, vec!["ERROR(exit=-1): killed".to_string()]);
}

#[test]
fn finish_negative_and_large_codes() {
    let r = finish_command(&finished("", "", false, Some(i32::MIN)));
    assert_eq!(r, vec!["ERROR(exit=-2147483648): ".to_string()]);
    let r = finish_command(&finished("", "", false, Some(255)));
    assert_eq!(r, vec!["ERROR(exit=255): ".to_string()]);
}

#[test]
fn finish_success_with_stderr() {
    let r = finish_command(&finished("x", "\twarn\n", true, Some(0)));
    assert_eq!(r, vec!["x".to_string(), "STDERR: warn".to_string()]);
}

#[test]
fn finish_silent_success_is_one_empty_line() {
    let r = finish_command(&finished("", " \n ", true, Some(0)));
    assert_eq!(r, vec![String::new()]);
}

#[test]
fn lines_split_like_std() {
    for text in ["", "a", "a\n", "a\r\nb", "a\n\nb\n", "x\r", "\n", "a\rb\r\n"] {
        let expected: Vec<String> = text.lines().map(|l| l.to_string()).collect();
        assert_eq!(split_lines(text), expected, "text {:?}", text);
    }
}
