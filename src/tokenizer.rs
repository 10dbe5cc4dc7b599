//! Shell-style splitting of a command line into argument words.
//!
//! Single and double quotes group words, a backslash outside single quotes
//! takes the next character literally, and unquoted whitespace separates
//! words. Nothing else of a shell is interpreted.
use vstd::prelude::*;
use crate::text::{is_ws, is_whitespace_char, chars_of, string_of, strings_view};

verus! {

/// Why a command line could not be split.
#[derive(Debug, Clone, Copy, PartialEq, Eq, Structural)]
pub enum ParseError {
    /// The line ends right after an unquoted backslash.
    TrailingEscape,
    /// A single or double quote is still open at the end of the line.
    UnterminatedQuote,
}

impl ParseError {
    pub open spec fn spec_message(self) -> Seq<char> {
        match self {
            ParseError::TrailingEscape => "trailing escape"@,
            ParseError::UnterminatedQuote => "unterminated quoted string"@,
        }
    }

    pub fn message(&self) -> (r: String)
        ensures
            r@ == self.spec_message(),
    {
        match self {
            ParseError::TrailingEscape => String::from_str("trailing escape"),
            ParseError::UnterminatedQuote => String::from_str("unterminated quoted string"),
        }
    }
}

/// The state of the splitter between two characters.
pub struct SplitState {
    pub words: Seq<Seq<char>>,
    pub current: Seq<char>,
    pub in_single: bool,
    pub in_double: bool,
    pub escaped: bool,
}

pub open spec fn split_start() -> SplitState {
    SplitState {
        words: Seq::empty(),
        current: Seq::empty(),
        in_single: false,
        in_double: false,
        escaped: false,
    }
}

/// One character of input, by the first rule that applies.
pub open spec fn split_step(st: SplitState, c: char) -> SplitState {
    if st.escaped {
        SplitState { current: st.current.push(c), escaped: false, ..st }
    } else if c == '\\' && !st.in_single {
        SplitState { escaped: true, ..st }
    } else if c == '\'' && !st.in_double {
        SplitState { in_single: !st.in_single, ..st }
    } else if c == '"' && !st.in_single {
        SplitState { in_double: !st.in_double, ..st }
    } else if is_ws(c) && !st.in_single && !st.in_double {
        if st.current.len() > 0 {
            SplitState { words: st.words.push(st.current), current: Seq::empty(), ..st }
        } else {
            st
        }
    } else {
        SplitState { current: st.current.push(c), ..st }
    }
}

/// The state after the whole of `s`, read from the left.
pub open spec fn split_run(s: Seq<char>) -> SplitState
    decreases s.len(),
{
    if s.len() == 0 {
        split_start()
    } else {
        split_step(split_run(s.drop_last()), s.last())
    }
}

/// The words of `s`, or why it has none.
pub open spec fn split_words(s: Seq<char>) -> Result<Seq<Seq<char>>, ParseError> {
    let st = split_run(s);
    if st.escaped {
        Err(ParseError::TrailingEscape)
    } else if st.in_single || st.in_double {
        Err(ParseError::UnterminatedQuote)
    } else if st.current.len() > 0 {
        Ok(st.words.push(st.current))
    } else {
        Ok(st.words)
    }
}

/// Splits `command` into words by the quoting and escaping rules above.
pub fn shlex_split(command: &str) -> (r: Result<Vec<String>, ParseError>)
    ensures
        match r {
            Ok(words) => split_words(command@) == Ok::<Seq<Seq<char>>, ParseError>(
                strings_view(words@),
            ),
            Err(e) => split_words(command@) == Err::<Seq<Seq<char>>, ParseError>(e),
        },
{
    let chars = chars_of(command);
    let mut parts: Vec<String> = Vec::new();
    let mut current: Vec<char> = Vec::new();
    let mut in_single = false;
    let mut in_double = false;
    let mut escaped = false;
    let mut i: usize = 0;
    assert(strings_view(parts@) =~= Seq::<Seq<char>>::empty());
    assert(chars@.subrange(0, 0) =~= Seq::<char>::empty());
    while i < chars.len()
        invariant
            i <= chars@.len(),
            chars@ == command@,
            split_run(chars@.subrange(0, i as int)) == (SplitState {
                words: strings_view(parts@),
                current: current@,
                in_single,
                in_double,
                escaped,
            }),
        decreases chars@.len() - i,
    {
        let ch = chars[i];
        proof {
            let pre = chars@.subrange(0, i as int);
            let next = chars@.subrange(0, i as int + 1);
            assert(next.drop_last() =~= pre);
            assert(next.last() == ch);
        }
        if escaped {
            current.push(ch);
            escaped = false;
        } else if ch == '\\' && !in_single {
            escaped = true;
        } else if ch == '\'' && !in_double {
            in_single = !in_single;
        } else if ch == '"' && !in_single {
            in_double = !in_double;
        } else if is_whitespace_char(ch) && !in_single && !in_double {
            if current.len() > 0 {
                let word = string_of(&current);
                let ghost old_parts = parts@;
                parts.push(word);
                assert(strings_view(parts@) =~= strings_view(old_parts).push(word@));
                current = Vec::new();
                assert(current@ =~= Seq::<char>::empty());
            }
        } else {
            current.push(ch);
        }
        i = i + 1;
    }
    assert(chars@.subrange(0, i as int) =~= command@);
    if escaped {
        return Err(ParseError::TrailingEscape);
    }
    if in_single || in_double {
        return Err(ParseError::UnterminatedQuote);
    }
    if current.len() > 0 {
        let word = string_of(&current);
        let ghost old_parts = parts@;
        parts.push(word);
        assert(strings_view(parts@) =~= strings_view(old_parts).push(word@));
    }
    Ok(parts)
}

proof fn lemma_words_not_empty(s: Seq<char>)
    ensures
        forall|k: int| 0 <= k < split_run(s).words.len() ==> #[trigger] split_run(s).words[k].len()
            > 0,
    decreases s.len(),
{
    if s.len() > 0 {
        lemma_words_not_empty(s.drop_last());
        let prev = split_run(s.drop_last());
        assert forall|k: int| 0 <= k < split_run(s).words.len() implies #[trigger] split_run(
            s,
        ).words[k].len() > 0 by {
            if k < prev.words.len() {
                assert(split_run(s).words[k] == prev.words[k]);
            }
        }
    }
}

/// Splitting always ends with a definite outcome: the words of the line when
/// it leaves no quote open and does not end in an escape, each word
/// non-empty; otherwise the error that says which of the two happened.
pub proof fn lemma_split_outcome(s: Seq<char>)
    ensures
        split_run(s).escaped ==> split_words(s) == Err::<Seq<Seq<char>>, ParseError>(
            ParseError::TrailingEscape,
        ),
        !split_run(s).escaped && (split_run(s).in_single || split_run(s).in_double)
            ==> split_words(s) == Err::<Seq<Seq<char>>, ParseError>(
            ParseError::UnterminatedQuote,
        ),
        !split_run(s).escaped && !split_run(s).in_single && !split_run(s).in_double
            ==> split_words(s) is Ok,
        split_words(s) matches Ok(words) ==> forall|k: int|
            0 <= k < words.len() ==> #[trigger] words[k].len() > 0,
{
    lemma_words_not_empty(s);
}

} // verus!
