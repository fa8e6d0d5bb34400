//! Reading a line of input: the line that ends the session, an answer, or
//! neither.

use vstd::prelude::*;
use vstd::string::*;
use crate::decimal::{parse_number, parsed};
use crate::trusted::{is_white_space, white_space};

verus! {

/// What a line of input asks for.
#[derive(Debug, Clone, Copy, PartialEq, Eq, Structural)]
pub enum Input {
    /// The line that ends the session.
    Quit,
    /// An answer, counted from one.
    Answer(usize),
    /// Anything else.
    Invalid,
}

/// `text` without the white space that leads it.
pub open spec fn trim_start(text: Seq<char>) -> Seq<char>
    decreases text.len(),
{
    if text.len() > 0 && is_white_space(text[0]) {
        trim_start(text.skip(1))
    } else {
        text
    }
}

/// `text` without the white space that ends it.
pub open spec fn trim_end(text: Seq<char>) -> Seq<char>
    decreases text.len(),
{
    if text.len() > 0 && is_white_space(text.last()) {
        trim_end(text.drop_last())
    } else {
        text
    }
}

/// `text` without the white space at its two ends.
pub open spec fn trimmed(text: Seq<char>) -> Seq<char> {
    trim_end(trim_start(text))
}

/// What `text`, a line already trimmed, asks for: an answer if it is a
/// number that fits the machine's word, and nothing valid otherwise.
pub open spec fn answer_in(text: Seq<char>) -> Input {
    match parsed(text) {
        Some(n) => if n <= usize::MAX {
            Input::Answer(n as usize)
        } else {
            Input::Invalid
        },
        None => Input::Invalid,
    }
}

/// What `line` asks for. The letter `e` with the end of line right behind it
/// ends the session; every other line is trimmed and read as an answer.
pub open spec fn input_in(line: Seq<char>) -> Input {
    if line == seq!['e', '\n'] {
        Input::Quit
    } else {
        answer_in(trimmed(line))
    }
}

/// A text that starts with `count` characters of white space, and then ends
/// or goes on with another character, is trimmed at its start by dropping
/// those.
proof fn lemma_trim_start(text: Seq<char>, count: int)
    requires
        0 <= count <= text.len(),
        forall|j: int| 0 <= j < count ==> is_white_space(#[trigger] text[j]),
        count < text.len() ==> !is_white_space(text[count]),
    ensures
        trim_start(text) == text.skip(count),
    decreases count,
{
    if count > 0 {
        lemma_trim_start(text.skip(1), count - 1);
    }
}

/// A text whose characters from `keep` on are white space, and whose
/// character before that, if there is one, is not, is trimmed at its end by
/// keeping the first `keep`.
proof fn lemma_trim_end(text: Seq<char>, keep: int)
    requires
        0 <= keep <= text.len(),
        forall|j: int| keep <= j < text.len() ==> is_white_space(#[trigger] text[j]),
        keep > 0 ==> !is_white_space(text[keep - 1]),
    ensures
        trim_end(text) == text.take(keep),
    decreases text.len() - keep,
{
    if keep < text.len() {
        lemma_trim_end(text.drop_last(), keep);
    }
}

/// Takes the white space off the two ends of `line`.
pub fn trim(line: &str) -> (text: &str)
    ensures
        text@ == trimmed(line@),
{
    let length = line.unicode_len();
    let mut start: usize = 0;
    let mut end: usize = 0;
    let mut blank = true;
    let mut at: usize = 0;
    for c in it: line.chars()
        invariant
            it.seq() == line@,
            length == line@.len(),
            at == it.index(),
            start <= end <= at,
            blank ==> start == 0 && end == 0,
            !blank ==> start < end,
            forall|j: int| 0 <= j < (if blank { at } else { start }) ==> is_white_space(
                #[trigger] line@[j],
            ),
            forall|j: int| end <= j < at ==> is_white_space(#[trigger] line@[j]),
            !blank ==> !is_white_space(line@[start as int]),
            !blank ==> !is_white_space(line@[end - 1]),
    {
        if !white_space(c) {
            if blank {
                start = at;
                blank = false;
            }
            end = at + 1;
        }
        at = at + 1;
    }
    if blank {
        start = length;
        end = length;
    }
    proof {
        lemma_trim_start(line@, start as int);
        lemma_trim_end(line@.skip(start as int), end - start);
    }
    line.substring_char(start, end)
}

/// Reads a line that was trimmed already.
pub fn read_answer(text: &str) -> (input: Input)
    ensures
        input == answer_in(text@),
{
    match parse_number(text) {
        Some(n) => Input::Answer(n),
        None => Input::Invalid,
    }
}

/// Reads a line of input as it came, end of line included.
pub fn read_line(line: &str) -> (input: Input)
    ensures
        input == input_in(line@),
{
    if is_quit(line) {
        Input::Quit
    } else {
        read_answer(trim(line))
    }
}

/// Whether `line` is the letter `e` with the end of line right behind it.
fn is_quit(line: &str) -> (quit: bool)
    ensures
        quit == (line@ == seq!['e', '\n']),
{
    if line.unicode_len() == 2 {
        let first = line.get_char(0);
        let second = line.get_char(1);
        assert(line@ =~= seq![line@[0], line@[1]]);
        first == 'e' && second == '\n'
    } else {
        false
    }
}

} // verus!
