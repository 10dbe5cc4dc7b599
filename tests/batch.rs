use native_lbb::executor::{finish_command, plan_command, CommandPlan, ProcessReport};
use native_lbb::batch::{assemble_batch, order_results, parse_batch, read_count, serialize_batch, BatchError};

fn lines(v: &[&str]) -> Vec<String> {
    v.iter().map(|s| s.to_string()).collect()
}

#[test]
fn parse_two_commands() {
    assert_eq!(parse_batch("2\necho a\necho b\n"), Ok(lines(&["echo a", "echo b"])));
}

#[test]
fn parse_ignores_extra_lines() {
    assert_eq!(parse_batch(" 1 \r\nls\nextra"), Ok(lines(&["ls"])));
}

#[test]
fn parse_zero_commands() {
    assert_eq!(parse_batch("0"), Ok(vec![]));
}

#[test]
fn parse_missing_header() {
    assert_eq!(parse_batch(""), Err(BatchError::MissingHeader));
    assert_eq!(BatchError::MissingHeader.message(), "Payload missing command count header");
}

#[test]
fn parse_invalid_count() {
    assert_eq!(parse_batch("two\na\nb"), Err(BatchError::InvalidCount));
    assert_eq!(parse_batch("-1\na"), Err(BatchError::InvalidCount));
    assert_eq!(parse_batch("+\na"), Err(BatchError::InvalidCount));
    assert_eq!(parse_batch("99999999999999999999999\na"), Err(BatchError::InvalidCount));
}

#[test]
fn parse_insufficient_lines() {
    assert_eq!(parse_batch("3\na\nb\n"), Err(BatchError::InsufficientLines));
}

#[test]
fn count_reads_like_usize_from_str() {
    for s in ["0", "7", "+12", "007", "", "+", "1 2", "18446744073709551615", "18446744073709551616"] {
        let chars: Vec<char> = s.chars().collect();
        assert_eq!(read_count(&chars), s.parse::<usize>().ok(), "count {:?}", s);
    }
}

#[test]
fn two_blocks_in_command_order() {
    let entries = vec![(1usize, lines(&["b"])), (0usize, lines(&["a"]))];
    assert_eq!(assemble_batch(2, entries), Ok("a\u{1e}b".to_string()));
}

#[test]
fn block_lines_joined_by_unit_separator() {
    let blocks = vec![lines(&["x", "y"]), lines(&[""]), lines(&["z"])];
    assert_eq!(serialize_batch(&blocks), "x\u{1f}y\u{1e}\u{1e}z");
}

#[test]
fn order_does_not_depend_on_reporting_order() {
    let a = vec![(0usize, lines(&["p"])), (1, lines(&["q", "r"])), (2, lines(&["s"]))];
    let b = vec![(2usize, lines(&["s"])), (0, lines(&["p"])), (1, lines(&["q", "r"]))];
    let ra = order_results(3, a).unwrap();
    let rb = order_results(3, b).unwrap();
    assert_eq!(ra, rb);
    assert_eq!(ra.len(), 3);
    assert_eq!(ra[1], lines(&["q", "r"]));
}

#[test]
fn bad_tags_abort_the_batch() {
    let dup = vec![(0usize, lines(&["a"])), (0usize, lines(&["b"]))];
    assert_eq!(assemble_batch(2, dup), Err(BatchError::WorkerAborted));
    let out_of_range = vec![(0usize, lines(&["a"])), (5usize, lines(&["b"]))];
    assert_eq!(assemble_batch(2, out_of_range), Err(BatchError::WorkerAborted));
    let missing = vec![(0usize, lines(&["a"]))];
    assert_eq!(assemble_batch(2, missing), Err(BatchError::WorkerAborted));
}

#[test]
fn empty_batch_is_empty_blob() {
    assert_eq!(assemble_batch(0, vec![]), Ok(String::new()));
}

#[test]
fn batch_of_two_echo_commands() {
    let commands = parse_batch("2\necho a\necho b\n").unwrap();
    let mut entries = Vec::new();
    for (index, command) in commands.iter().enumerate().rev() {
        let report = match plan_command(command) {
            CommandPlan::Run { program, args } => {
                assert_eq!(program, "echo");
                ProcessReport::Finished {
                    stdout: format!("{}\n", args.join(" ")),
                    stderr: String::new(),
                    success: true,
                    code: Some(0),
                }
            }
            CommandPlan::Reply(_) => panic!("expected a run"),
        };
        entries.push((index, finish_command(&report)));
    }
    let blob = assemble_batch(2, entries).unwrap();
    assert_eq!(blob, "a\u{1e}b");
    assert!(!blob.contains('\u{1f}'));
}
