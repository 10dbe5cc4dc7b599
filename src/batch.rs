//! Batches of command lines: the payload read, the results put back in the
//! order of the commands, and the blob written.
//!
//! A payload is a count `N` on its first line and then `N` command lines.
//! The results come back as `N` blocks joined by the record separator
//! (`0x1E`); the lines of a block are joined by the unit separator (`0x1F`).
use vstd::prelude::*;
use crate::executor::{split_lines, text_lines};
use crate::text::{chars_of, push_str, string_of, strings_view, trim_range, trimmed};

verus! {

pub const RECORD_SEPARATOR: char = '\u{1e}';

pub const UNIT_SEPARATOR: char = '\u{1f}';

/// Why a batch could not be run.
#[derive(Debug, Clone, Copy, PartialEq, Eq, Structural)]
pub enum BatchError {
    /// The payload has no first line.
    MissingHeader,
    /// The first line is not a decimal count.
    InvalidCount,
    /// Fewer command lines follow than the count says.
    InsufficientLines,
    /// A worker ended without reporting, or reported an index twice or out of range.
    WorkerAborted,
}

impl BatchError {
    pub open spec fn spec_message(self) -> Seq<char> {
        match self {
            BatchError::MissingHeader => "Payload missing command count header"@,
            BatchError::InvalidCount => "Invalid command count in payload"@,
            BatchError::InsufficientLines => "Insufficient command lines in payload"@,
            BatchError::WorkerAborted => "Thread panicked during command execution"@,
        }
    }

    pub fn message(&self) -> (r: String)
        ensures
            r@ == self.spec_message(),
    {
        match self {
            BatchError::MissingHeader => String::from_str("Payload missing command count header"),
            BatchError::InvalidCount => String::from_str("Invalid command count in payload"),
            BatchError::InsufficientLines => String::from_str(
                "Insufficient command lines in payload",
            ),
            BatchError::WorkerAborted => String::from_str(
                "Thread panicked during command execution",
            ),
        }
    }
}

pub open spec fn is_digit(c: char) -> bool {
    '0' <= c && c <= '9'
}

pub open spec fn digit_value(c: char) -> nat {
    (c as u32 - '0' as u32) as nat
}

/// The number that the decimal digits `t` write.
pub open spec fn digits_value(t: Seq<char>) -> nat
    decreases t.len(),
{
    if t.len() == 0 {
        0
    } else {
        digits_value(t.drop_last()) * 10 + digit_value(t.last())
    }
}

/// The digits of a count: `s` without one leading `+`.
pub open spec fn count_digits(s: Seq<char>) -> Seq<char> {
    if s.len() > 0 && s[0] == '+' {
        s.drop_first()
    } else {
        s
    }
}

/// A count as `usize::from_str` reads it: an optional `+`, then one or more
/// decimal digits, with a value that fits in `usize`.
pub open spec fn parse_count(s: Seq<char>) -> Option<nat> {
    let t = count_digits(s);
    if t.len() > 0 && (forall|k: int| 0 <= k < t.len() ==> is_digit(t[k])) && digits_value(t)
        <= usize::MAX {
        Some(digits_value(t))
    } else {
        None
    }
}

/// The command lines of `payload`, or why there are none.
pub open spec fn batch_commands(payload: Seq<char>) -> Result<Seq<Seq<char>>, BatchError> {
    let ls = text_lines(payload);
    if ls.len() == 0 {
        Err(BatchError::MissingHeader)
    } else {
        match parse_count(trimmed(ls[0])) {
            None => Err(BatchError::InvalidCount),
            Some(n) => if ls.len() - 1 < n {
                Err(BatchError::InsufficientLines)
            } else {
                Ok(ls.subrange(1, n as int + 1))
            },
        }
    }
}

/// The parts joined, with `sep` between two neighbours.
pub open spec fn joined(parts: Seq<Seq<char>>, sep: char) -> Seq<char>
    decreases parts.len(),
{
    if parts.len() == 0 {
        Seq::empty()
    } else if parts.len() == 1 {
        parts[0]
    } else {
        joined(parts.drop_last(), sep).push(sep) + parts.last()
    }
}

/// The blob for result blocks given as lines.
pub open spec fn serialized(blocks: Seq<Seq<Seq<char>>>) -> Seq<char> {
    joined(blocks.map_values(|b: Seq<Seq<char>>| joined(b, UNIT_SEPARATOR)), RECORD_SEPARATOR)
}

pub open spec fn blocks_view(blocks: Seq<Vec<String>>) -> Seq<Seq<Seq<char>>> {
    blocks.map_values(|b: Vec<String>| strings_view(b@))
}

/// Reads a count as `parse_count` describes it.
pub fn read_count(s: &Vec<char>) -> (r: Option<usize>)
    ensures
        match r {
            Some(v) => parse_count(s@) == Some(v as nat),
            None => parse_count(s@) is None,
        },
{
    let start: usize = if s.len() > 0 && s[0] == '+' {
        1
    } else {
        0
    };
    let ghost t = count_digits(s@);
    assert(t =~= s@.subrange(start as int, s@.len() as int));
    if start >= s.len() {
        return None;
    }
    let mut value: usize = 0;
    let mut overflow = false;
    let mut i: usize = start;
    assert(s@.subrange(start as int, start as int) =~= Seq::<char>::empty());
    while i < s.len()
        invariant
            start <= i <= s@.len(),
            t == s@.subrange(start as int, s@.len() as int),
            t == count_digits(s@),
            forall|k: int| start <= k < i ==> is_digit(s@[k]),
            !overflow ==> value == digits_value(s@.subrange(start as int, i as int)),
            overflow ==> digits_value(s@.subrange(start as int, i as int)) > usize::MAX,
        decreases s@.len() - i,
    {
        let c = s[i];
        if !('0' <= c && c <= '9') {
            assert(t[i - start] == c);
            assert(!is_digit(t[i - start]));
            return None;
        }
        let d = (c as u32 - '0' as u32) as usize;
        let ghost prev = digits_value(s@.subrange(start as int, i as int));
        assert(s@.subrange(start as int, i + 1).drop_last() =~= s@.subrange(
            start as int,
            i as int,
        ));
        assert(digits_value(s@.subrange(start as int, i + 1)) == prev * 10 + d);
        if !overflow {
            if value > (usize::MAX - d) / 10 {
                overflow = true;
                assert(prev * 10 + d > usize::MAX) by (nonlinear_arith)
                    requires
                        prev == value,
                        value > (usize::MAX - d) / 10,
                        d <= 9,
                ;
            } else {
                assert(value * 10 + d <= usize::MAX) by (nonlinear_arith)
                    requires
                        value <= (usize::MAX - d) / 10,
                        d <= 9,
                ;
                value = value * 10 + d;
            }
        } else {
            assert(prev * 10 + d >= prev) by (nonlinear_arith);
        }
        i = i + 1;
    }
    assert(s@.subrange(start as int, i as int) =~= t);
    if overflow {
        None
    } else {
        Some(value)
    }
}

/// Reads the command lines of a batch payload.
pub fn parse_batch(payload: &str) -> (r: Result<Vec<String>, BatchError>)
    ensures
        match r {
            Ok(cmds) => batch_commands(payload@) == Ok::<Seq<Seq<char>>, BatchError>(
                strings_view(cmds@),
            ),
            Err(e) => batch_commands(payload@) == Err::<Seq<Seq<char>>, BatchError>(e),
        },
{
    let mut lines = split_lines(payload);
    if lines.len() == 0 {
        return Err(BatchError::MissingHeader);
    }
    let ghost ls = strings_view(lines@);
    let header = chars_of(lines[0].as_str());
    let count_chars = trim_range(&header, 0, header.len());
    assert(header@.subrange(0, header@.len() as int) =~= header@);
    let count = match read_count(&count_chars) {
        None => {
            return Err(BatchError::InvalidCount);
        },
        Some(c) => c,
    };
    if lines.len() - 1 < count {
        return Err(BatchError::InsufficientLines);
    }
    let mut cmds: Vec<String> = Vec::new();
    let mut i: usize = 0;
    while i < count
        invariant
            i <= count < lines@.len(),
            ls == strings_view(lines@),
            strings_view(cmds@) == ls.subrange(1, i + 1),
        decreases count - i,
    {
        let line = lines[i + 1].clone();
        let ghost before = cmds@;
        assert(line@ == ls[i + 1]);
        cmds.push(line);
        assert(strings_view(cmds@) =~= strings_view(before).push(line@));
        assert(strings_view(cmds@) =~= ls.subrange(1, i + 2));
        i = i + 1;
    }
    assert(strings_view(cmds@) =~= ls.subrange(1, count + 1));
    Ok(cmds)
}

/// Joins `parts` with `sep` between two neighbours.
pub fn join_with(parts: &Vec<String>, sep: char) -> (r: Vec<char>)
    ensures
        r@ == joined(strings_view(parts@), sep),
{
    let mut out: Vec<char> = Vec::new();
    let mut i: usize = 0;
    while i < parts.len()
        invariant
            i <= parts@.len(),
            out@ == joined(strings_view(parts@).subrange(0, i as int), sep),
        decreases parts@.len() - i,
    {
        let ghost pre = strings_view(parts@).subrange(0, i as int);
        let ghost next = strings_view(parts@).subrange(0, i + 1);
        assert(next.drop_last() =~= pre);
        if i > 0 {
            out.push(sep);
        }
        push_str(&mut out, parts[i].as_str());
        proof {
            if i == 0 {
                assert(out@ =~= next[0]);
            } else {
                assert(out@ =~= joined(pre, sep).push(sep) + next.last());
            }
        }
        i = i + 1;
    }
    assert(strings_view(parts@).subrange(0, i as int) =~= strings_view(parts@));
    out
}

/// Writes result blocks as one blob: the lines of a block joined by the unit
/// separator, the blocks joined by the record separator.
pub fn serialize_batch(blocks: &Vec<Vec<String>>) -> (r: String)
    ensures
        r@ == serialized(blocks_view(blocks@)),
{
    let ghost parts = blocks_view(blocks@).map_values(
        |b: Seq<Seq<char>>| joined(b, UNIT_SEPARATOR),
    );
    let mut out: Vec<char> = Vec::new();
    let mut i: usize = 0;
    while i < blocks.len()
        invariant
            i <= blocks@.len(),
            parts == blocks_view(blocks@).map_values(
                |b: Seq<Seq<char>>| joined(b, UNIT_SEPARATOR),
            ),
            out@ == joined(parts.subrange(0, i as int), RECORD_SEPARATOR),
        decreases blocks@.len() - i,
    {
        let ghost pre = parts.subrange(0, i as int);
        let ghost next = parts.subrange(0, i + 1);
        assert(next.drop_last() =~= pre);
        if i > 0 {
            out.push(RECORD_SEPARATOR);
        }
        let mut block = join_with(&blocks[i], UNIT_SEPARATOR);
        assert(block@ == parts[i as int]);
        out.append(&mut block);
        proof {
            if i == 0 {
                assert(out@ =~= next[0]);
            } else {
                assert(out@ =~= joined(pre, RECORD_SEPARATOR).push(RECORD_SEPARATOR) + next.last());
            }
        }
        i = i + 1;
    }
    assert(parts.subrange(0, i as int) =~= parts);
    string_of(&out)
}

/// The results, each tagged with the position of its command, tag every
/// position below `n` exactly once.
pub open spec fn indexes_exactly(entries: Seq<(usize, Vec<String>)>, n: nat) -> bool {
    &&& forall|j: int| 0 <= j < entries.len() ==> entries[j].0 < n
    &&& forall|j1: int, j2: int|
        0 <= j1 < entries.len() && 0 <= j2 < entries.len() && j1 != j2 ==> entries[j1].0
            != entries[j2].0
    &&& forall|i: int| 0 <= i < n ==> #[trigger] tagged(entries, i)
}

/// Some result is tagged `i`.
pub open spec fn tagged(entries: Seq<(usize, Vec<String>)>, i: int) -> bool {
    exists|j: int| 0 <= j < entries.len() && entries[j].0 == i
}

/// The lines of the result tagged `i`.
pub open spec fn block_at(entries: Seq<(usize, Vec<String>)>, i: int) -> Seq<Seq<char>> {
    let j = choose|j: int| 0 <= j < entries.len() && entries[j].0 == i;
    strings_view(entries[j].1@)
}

/// The results in the order of their commands.
pub open spec fn ordered_blocks(entries: Seq<(usize, Vec<String>)>, n: nat) -> Seq<
    Seq<Seq<char>>,
> {
    Seq::new(n, |i: int| block_at(entries, i))
}

/// Puts results reported in any order back in the order of their commands;
/// `None` where the tags are not each position below `n` exactly once.
#[verifier::loop_isolation(false)]
pub fn order_results(n: usize, entries: Vec<(usize, Vec<String>)>) -> (r: Option<
    Vec<Vec<String>>,
>)
    ensures
        r is Some <==> indexes_exactly(entries@, n as nat),
        r matches Some(blocks) ==> blocks_view(blocks@) == ordered_blocks(entries@, n as nat),
{
    let ghost orig = entries@;
    let mut pending = entries;
    let mut slots: Vec<Option<Vec<String>>> = Vec::new();
    let mut i: usize = 0;
    while i < n
        invariant
            i <= n,
            slots@.len() == i,
            forall|k: int| 0 <= k < i ==> slots@[k] is None,
        decreases n - i,
    {
        slots.push(None);
        i = i + 1;
    }
    while pending.len() > 0
        invariant
            pending@.len() <= orig.len(),
            pending@ == orig.subrange(0, pending@.len() as int),
            slots@.len() == n,
            forall|j: int|
                pending@.len() <= j < orig.len() ==> orig[j].0 < n && slots@[orig[j].0 as int]
                    == Some(orig[j].1),
            forall|j1: int, j2: int|
                pending@.len() <= j1 < orig.len() && pending@.len() <= j2 < orig.len() && j1
                    != j2 ==> orig[j1].0 != orig[j2].0,
            forall|k: int|
                0 <= k < n && slots@[k] is Some ==> exists|j: int|
                    pending@.len() <= j < orig.len() && orig[j].0 == k,
        decreases pending@.len(),
    {
        let ghost last = pending@.len() - 1;
        let (idx, lines) = match pending.pop() {
            Some(e) => e,
            None => {
                assert(false);
                return None;
            },
        };
        assert(orig[last].0 == idx && orig[last].1 == lines);
        if idx >= n {
            assert(!indexes_exactly(orig, n as nat));
            return None;
        }
        if slots[idx].is_some() {
            proof {
                let j = choose|j: int| last < j < orig.len() && orig[j].0 == idx;
                assert(orig[j].0 == orig[last].0);
                assert(!indexes_exactly(orig, n as nat));
            }
            return None;
        }
        slots.set(idx, Some(lines));
        proof {
            assert forall|k: int|
                0 <= k < n && slots@[k] is Some implies exists|j: int|
                    last <= j < orig.len() && orig[j].0 == k by {
                if k != idx {
                    let j = choose|j: int| last < j < orig.len() && orig[j].0 == k;
                    assert(last <= j < orig.len() && orig[j].0 == k);
                } else {
                    assert(orig[last].0 == k);
                }
            }
        }
    }
    let ghost full = slots@;
    assert forall|q: int| 0 <= q < n && full[q] is Some implies tagged(orig, q) by {
        let j = choose|j: int| 0 <= j < orig.len() && orig[j].0 == q;
        assert(0 <= j < orig.len() && orig[j].0 == q);
    }
    let mut out: Vec<Vec<String>> = Vec::new();
    let mut k: usize = 0;
    while k < n
        invariant
            k <= n,
            full.len() == n,
            pending@.len() == 0,
            slots@ == full.subrange(k as int, n as int),
            forall|j: int| 0 <= j < orig.len() ==> orig[j].0 < n && full[orig[j].0 as int] == Some(
                orig[j].1,
            ),
            forall|j1: int, j2: int|
                0 <= j1 < orig.len() && 0 <= j2 < orig.len() && j1 != j2 ==> orig[j1].0
                    != orig[j2].0,
            forall|q: int| 0 <= q < n && full[q] is Some ==> tagged(orig, q),
            forall|q: int| 0 <= q < k ==> #[trigger] tagged(orig, q),
            blocks_view(out@) == ordered_blocks(orig, n as nat).subrange(0, k as int),
        decreases n - k,
    {
        assert(slots@[0] == full[k as int]);
        let slot = slots.remove(0);
        assert(slots@ =~= full.subrange(k + 1, n as int));
        match slot {
            None => {
                proof {
                    if tagged(orig, k as int) {
                        let j = choose|j: int| 0 <= j < orig.len() && orig[j].0 == k;
                        assert(full[orig[j].0 as int] is Some);
                    }
                    assert(!tagged(orig, k as int));
                    assert(!indexes_exactly(orig, n as nat));
                }
                return None;
            },
            Some(v) => {
                proof {
                    assert(full[k as int] is Some);
                    assert(tagged(orig, k as int));
                    let j = choose|j: int| 0 <= j < orig.len() && orig[j].0 == k;
                    let jc = choose|j: int| 0 <= j < orig.len() && orig[j].0 == k as int;
                    assert(jc == j);
                    assert(full[k as int] == Some(orig[j].1));
                    assert(block_at(orig, k as int) == strings_view(v@));
                }
                let ghost before = out@;
                out.push(v);
                assert(blocks_view(out@) =~= blocks_view(before).push(strings_view(v@)));
                assert(ordered_blocks(orig, n as nat).subrange(0, k + 1) =~= ordered_blocks(
                    orig,
                    n as nat,
                ).subrange(0, k as int).push(block_at(orig, k as int)));
                assert(blocks_view(out@) =~= ordered_blocks(orig, n as nat).subrange(0, k + 1));
                k = k + 1;
            },
        }
    }
    assert(ordered_blocks(orig, n as nat).subrange(0, n as int) =~= ordered_blocks(
        orig,
        n as nat,
    ));
    Some(out)
}

/// Puts the results in the order of their commands and writes the blob.
pub fn assemble_batch(n: usize, entries: Vec<(usize, Vec<String>)>) -> (r: Result<
    String,
    BatchError,
>)
    ensures
        r is Ok <==> indexes_exactly(entries@, n as nat),
        r matches Ok(blob) ==> blob@ == serialized(ordered_blocks(entries@, n as nat)),
        r matches Err(e) ==> e == BatchError::WorkerAborted,
{
    match order_results(n, entries) {
        Some(blocks) => Ok(serialize_batch(&blocks)),
        None => Err(BatchError::WorkerAborted),
    }
}

/// The blocks depend on the results alone, not on the order in which they
/// were reported: two reports of the same results give the same blocks, one
/// for each command, in the order of the commands.
pub proof fn lemma_order_independent(
    a: Seq<(usize, Vec<String>)>,
    b: Seq<(usize, Vec<String>)>,
    n: nat,
)
    requires
        indexes_exactly(a, n),
        indexes_exactly(b, n),
        forall|k: int| 0 <= k < a.len() ==> b.contains(#[trigger] a[k]),
    ensures
        ordered_blocks(a, n) == ordered_blocks(b, n),
        ordered_blocks(a, n).len() == n,
{
    assert forall|i: int| 0 <= i < n implies block_at(a, i) == block_at(b, i) by {
        assert(tagged(a, i));
        assert(tagged(b, i));
        let ja = choose|j: int| 0 <= j < a.len() && a[j].0 == i;
        let jb = choose|j: int| 0 <= j < b.len() && b[j].0 == i;
        assert(b.contains(a[ja]));
        let kb = choose|k: int| 0 <= k < b.len() && b[k] == a[ja];
        assert(b[kb].0 == i);
        assert(kb == jb);
    }
    assert(ordered_blocks(a, n) =~= ordered_blocks(b, n));
}

} // verus!
