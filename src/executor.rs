//! What running one command line reports, as lines of text.
//!
//! Launching the program is left to the caller: `plan_command` says what to
//! launch, or gives the lines at once when there is nothing to launch, and
//! `finish_command` turns what the process left behind into the lines
//! reported. Neither ever gives an empty list of lines.
use vstd::prelude::*;
use crate::text::{chars_of, copy_range, push_str, string_of, strings_view, trim_range, trimmed};
use crate::tokenizer::{shlex_split, split_words, ParseError};

verus! {

/// What to do for one command line.
pub enum CommandPlan {
    /// Nothing is launched; these are the lines reported.
    Reply(Vec<String>),
    /// Launch `program` with `args`.
    Run { program: String, args: Vec<String> },
}

/// What became of a launched program.
pub enum ProcessReport {
    /// It ran and exited. `code` is its exit code, if it had one.
    Finished { stdout: String, stderr: String, success: bool, code: Option<i32> },
    /// It could not be started, for the reason given.
    SpawnFailed { reason: String },
}

pub open spec fn parse_error_line(e: ParseError) -> Seq<char> {
    "ERROR(parse): "@ + e.spec_message()
}

/// The state of line splitting: the finished lines and the line being read.
pub open spec fn lines_run(s: Seq<char>) -> (Seq<Seq<char>>, Seq<char>)
    decreases s.len(),
{
    if s.len() == 0 {
        (Seq::empty(), Seq::empty())
    } else {
        let (done, cur) = lines_run(s.drop_last());
        if s.last() == '\n' {
            (done.push(without_cr(cur)), Seq::empty())
        } else {
            (done, cur.push(s.last()))
        }
    }
}

/// A line that a `\n` ended, without the `\r` of a `\r\n`.
pub open spec fn without_cr(line: Seq<char>) -> Seq<char> {
    if line.len() > 0 && line.last() == '\r' {
        line.drop_last()
    } else {
        line
    }
}

/// The lines of `s` as `str::lines` gives them: split at `\n` or `\r\n`,
/// with no empty line after a final line ending.
pub open spec fn text_lines(s: Seq<char>) -> Seq<Seq<char>> {
    let (done, cur) = lines_run(s);
    if cur.len() > 0 {
        done.push(cur)
    } else {
        done
    }
}

pub open spec fn digit_char(d: int) -> char {
    if d == 0 { '0' } else if d == 1 { '1' } else if d == 2 { '2' } else if d == 3 { '3' }
    else if d == 4 { '4' } else if d == 5 { '5' } else if d == 6 { '6' } else if d == 7 { '7' }
    else if d == 8 { '8' } else { '9' }
}

/// The decimal digits of `m`, without leading zeros.
pub open spec fn digits(m: nat) -> Seq<char>
    decreases m,
{
    if m < 10 {
        seq![digit_char(m as int)]
    } else {
        digits(m / 10).push(digit_char((m % 10) as int))
    }
}

/// `n` in decimal, with a leading `-` when negative.
pub open spec fn decimal(n: int) -> Seq<char> {
    if n < 0 {
        seq!['-'] + digits((-n) as nat)
    } else {
        digits(n as nat)
    }
}

/// The line that reports a failed exit; `-1` stands for a missing exit code.
pub open spec fn exit_line(code: Option<i32>, stderr: Seq<char>) -> Seq<char> {
    let c: int = match code {
        Some(c) => c as int,
        None => -1,
    };
    "ERROR(exit="@ + decimal(c) + "): "@ + trimmed(stderr)
}

/// The lines reported for a program that ran.
pub open spec fn finished_lines(
    stdout: Seq<char>,
    stderr: Seq<char>,
    success: bool,
    code: Option<i32>,
) -> Seq<Seq<char>> {
    let base = text_lines(stdout);
    let all = if !success {
        base.push(exit_line(code, stderr))
    } else if trimmed(stderr).len() > 0 {
        base.push("STDERR: "@ + trimmed(stderr))
    } else {
        base
    };
    if all.len() == 0 {
        seq![Seq::empty()]
    } else {
        all
    }
}

/// The lines reported for `report`.
pub open spec fn report_lines(report: ProcessReport) -> Seq<Seq<char>> {
    match report {
        ProcessReport::Finished { stdout, stderr, success, code } => finished_lines(
            stdout@,
            stderr@,
            success,
            code,
        ),
        ProcessReport::SpawnFailed { reason } => seq!["ERROR(exec): "@ + reason@],
    }
}

fn digit_of(d: u64) -> (c: char)
    requires
        d < 10,
    ensures
        c == digit_char(d as int),
{
    if d == 0 { '0' } else if d == 1 { '1' } else if d == 2 { '2' } else if d == 3 { '3' }
    else if d == 4 { '4' } else if d == 5 { '5' } else if d == 6 { '6' } else if d == 7 { '7' }
    else if d == 8 { '8' } else { '9' }
}

fn push_digits(out: &mut Vec<char>, m: u64)
    ensures
        final(out)@ == old(out)@ + digits(m as nat),
    decreases m,
{
    if m >= 10 {
        push_digits(out, m / 10);
    }
    out.push(digit_of(m % 10));
    assert(out@ =~= old(out)@ + digits(m as nat));
}

/// Appends `n` in decimal to `out`.
pub fn push_decimal(out: &mut Vec<char>, n: i64)
    requires
        n > i64::MIN,
    ensures
        final(out)@ == old(out)@ + decimal(n as int),
{
    if n < 0 {
        out.push('-');
        push_digits(out, (-n) as u64);
        assert(out@ =~= old(out)@ + decimal(n as int));
    } else {
        push_digits(out, n as u64);
    }
}

/// Splits `text` into lines as `str::lines` does.
pub fn split_lines(text: &str) -> (r: Vec<String>)
    ensures
        strings_view(r@) == text_lines(text@),
{
    let chars = chars_of(text);
    let mut done: Vec<String> = Vec::new();
    let mut cur: Vec<char> = Vec::new();
    let mut i: usize = 0;
    assert(strings_view(done@) =~= Seq::<Seq<char>>::empty());
    assert(chars@.subrange(0, 0) =~= Seq::<char>::empty());
    while i < chars.len()
        invariant
            i <= chars@.len(),
            chars@ == text@,
            lines_run(chars@.subrange(0, i as int)) == (strings_view(done@), cur@),
        decreases chars@.len() - i,
    {
        let ch = chars[i];
        assert(chars@.subrange(0, i + 1).drop_last() =~= chars@.subrange(0, i as int));
        if ch == '\n' {
            let k = cur.len();
            let line = if k > 0 && cur[k - 1] == '\r' {
                copy_range(&cur, 0, k - 1)
            } else {
                copy_range(&cur, 0, k)
            };
            assert(cur@.subrange(0, k as int) =~= cur@);
            assert(cur@.drop_last() =~= cur@.subrange(0, k - 1));
            let ghost before = done@;
            done.push(string_of(&line));
            assert(strings_view(done@) =~= strings_view(before).push(line@));
            cur = Vec::new();
            assert(cur@ =~= Seq::<char>::empty());
        } else {
            cur.push(ch);
        }
        i = i + 1;
    }
    assert(chars@.subrange(0, i as int) =~= text@);
    if cur.len() > 0 {
        let ghost before = done@;
        done.push(string_of(&cur));
        assert(strings_view(done@) =~= strings_view(before).push(cur@));
    }
    done
}

fn one_line(line: &Vec<char>) -> (r: Vec<String>)
    ensures
        strings_view(r@) == seq![line@],
        r@.len() == 1,
{
    let mut r: Vec<String> = Vec::new();
    r.push(string_of(line));
    assert(strings_view(r@) =~= seq![line@]);
    r
}

/// Decides what running `command` takes: its words are split as `shlex_split`
/// does; a line that does not split is reported as `ERROR(parse): <message>`,
/// a line without words as one empty line, and otherwise the first word is the
/// program and the others its arguments.
pub fn plan_command(command: &str) -> (r: CommandPlan)
    ensures
        match split_words(command@) {
            Err(e) => r matches CommandPlan::Reply(lines) && strings_view(lines@) == seq![
                parse_error_line(e),
            ],
            Ok(words) => if words.len() == 0 {
                r matches CommandPlan::Reply(lines) && strings_view(lines@) == seq![
                    Seq::<char>::empty(),
                ]
            } else {
                r matches CommandPlan::Run { program, args } && program@ == words[0]
                    && strings_view(args@) == words.drop_first()
            },
        },
{
    match shlex_split(command) {
        Err(e) => {
            let mut line = chars_of("ERROR(parse): ");
            let m = e.message();
            push_str(&mut line, m.as_str());
            CommandPlan::Reply(one_line(&line))
        },
        Ok(words) => {
            if words.len() == 0 {
                let empty: Vec<char> = Vec::new();
                return CommandPlan::Reply(one_line(&empty));
            }
            let mut words = words;
            let ghost all = strings_view(words@);
            let program = words.remove(0);
            assert(strings_view(words@) =~= all.drop_first());
            CommandPlan::Run { program, args: words }
        },
    }
}

/// The lines reported for a command whose program was launched: the lines of
/// its standard output, then `ERROR(exit=<code>): <stderr>` after a failed
/// exit, or `STDERR: <stderr>` after a successful one that wrote to standard
/// error (trimmed in both); `ERROR(exec): <reason>` where it could not start.
pub fn finish_command(report: &ProcessReport) -> (r: Vec<String>)
    ensures
        strings_view(r@) == report_lines(*report),
        r@.len() >= 1,
{
    match report {
        ProcessReport::SpawnFailed { reason } => {
            let mut line = chars_of("ERROR(exec): ");
            push_str(&mut line, reason.as_str());
            one_line(&line)
        },
        ProcessReport::Finished { stdout, stderr, success, code } => {
            let mut lines = split_lines(stdout.as_str());
            let err_chars = chars_of(stderr.as_str());
            let err = trim_range(&err_chars, 0, err_chars.len());
            assert(err_chars@.subrange(0, err_chars@.len() as int) =~= stderr@);
            let ghost base = strings_view(lines@);
            if !*success {
                let mut line = chars_of("ERROR(exit=");
                let c: i64 = match code {
                    Some(c) => *c as i64,
                    None => -1,
                };
                push_decimal(&mut line, c);
                push_str(&mut line, "): ");
                let mut rest = err;
                line.append(&mut rest);
                lines.push(string_of(&line));
                assert(strings_view(lines@) =~= base.push(exit_line(*code, stderr@)));
            } else if err.len() > 0 {
                let mut line = chars_of("STDERR: ");
                let mut rest = err;
                line.append(&mut rest);
                lines.push(string_of(&line));
                assert(strings_view(lines@) =~= base.push("STDERR: "@ + trimmed(stderr@)));
            }
            if lines.len() == 0 {
                let empty: Vec<char> = Vec::new();
                return one_line(&empty);
            }
            lines
        },
    }
}

/// What a command reports is never empty: at least one line, whatever
/// became of its program.
pub proof fn lemma_report_never_empty(report: ProcessReport)
    ensures
        report_lines(report).len() >= 1,
{
}

} // verus!
