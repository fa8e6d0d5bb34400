//! One round's question: a few people of one profession, one of whom is asked for.

use vstd::prelude::*;
use vstd::string::*;
use crate::decimal::{decimal, to_decimal};
use crate::person::{Person, PersonView};
use crate::sampling::{unique_texts, MAX_ANSWERS};

verus! {

/// What a [`Question`] is to the contracts.
pub struct QuestionView {
    /// The answers in the order in which they are listed.
    pub answers: Seq<PersonView>,
    /// The position, from zero, of the answer asked for.
    pub expected_answer: nat,
    /// Whether the name is shown and the text is to be picked.
    pub reverse: bool,
}

impl QuestionView {
    /// The rules every question obeys: one to four answers with pairwise
    /// different texts, and the expected answer is one of them.
    pub open spec fn wf(self) -> bool {
        &&& 1 <= self.answers.len() <= MAX_ANSWERS
        &&& unique_texts(self.answers)
        &&& self.expected_answer < self.answers.len()
    }
}

/// Whether the answer `submitted`, counted from one as the player types it,
/// names the answer at position `expected`, counted from zero.
pub open spec fn scores(expected: nat, submitted: nat) -> bool {
    submitted >= 1 && submitted - 1 == expected
}

/// The line that sets a question off from what was shown before.
pub const RULE: &'static str = "----------------------------------------------";

/// The line that tells the player that the answer was right.
pub const CORRECT: &'static str = "-- CORRECT --";

/// The line that tells the player that the answer was wrong, highlighted.
pub const INCORRECT: &'static str = "\x1b[93m-- INCORRECT --\x1b[0m";

/// What the question asks with: the text of the expected answer, or its name
/// in reverse mode.
pub open spec fn prompt_of(q: QuestionView) -> Seq<char> {
    let expected = q.answers[q.expected_answer as int];
    if q.reverse {
        expected.name
    } else {
        expected.text
    }
}

/// What stands for the answer at position `i` in the list: its name, or its
/// text in reverse mode.
pub open spec fn label_of(q: QuestionView, i: int) -> Seq<char> {
    if q.reverse {
        q.answers[i].text
    } else {
        q.answers[i].name
    }
}

/// The line of the list for the answer at position `i`: a tab, its number
/// counted from one, a full stop, a blank and its label.
pub open spec fn option_line(q: QuestionView, i: int) -> Seq<char> {
    seq!['\t'] + decimal((i + 1) as nat) + seq!['.', ' '] + label_of(q, i)
}

/// The line that gives one answer away after the round: name and text.
pub open spec fn solution_line(p: PersonView) -> Seq<char> {
    seq!['>', ' '] + p.name + seq![':', ' '] + p.text
}

/// The same question in the other mode.
pub open spec fn mirrored(q: QuestionView) -> QuestionView {
    QuestionView { answers: q.answers, expected_answer: q.expected_answer, reverse: !q.reverse }
}

/// What a question shows, in the order in which it is shown.
#[derive(Debug)]
pub struct Screen {
    /// The rule and the prompt.
    pub heading: Vec<String>,
    /// Whether the player is waited for before the list appears.
    pub pause: bool,
    /// The numbered list of answers.
    pub options: Vec<String>,
}

/// A question over records that live in the catalog.
#[derive(Debug)]
pub struct Question<'a> {
    answers: Vec<&'a Person>,
    expected_answer: usize,
    reverse: bool,
}

impl<'a> View for Question<'a> {
    type V = QuestionView;

    closed spec fn view(&self) -> QuestionView {
        QuestionView {
            answers: self.answers.deep_view(),
            expected_answer: self.expected_answer as nat,
            reverse: self.reverse,
        }
    }
}

/// Whether no two of `answers` show the same text.
fn texts_differ(answers: &Vec<&Person>) -> (differ: bool)
    ensures
        differ == unique_texts(answers.deep_view()),
{
    let mut j: usize = 0;
    while j < answers.len()
        invariant
            j <= answers.len(),
            unique_texts(answers.deep_view().take(j as int)),
        decreases answers.len() - j,
    {
        let mut i: usize = 0;
        while i < j
            invariant
                i <= j < answers.len(),
                forall|k: int|
                    0 <= k < i ==> (#[trigger] answers.deep_view()[k]).text
                        != answers.deep_view()[j as int].text,
            decreases j - i,
        {
            if answers[i].text == answers[j].text {
                assert(answers.deep_view()[i as int].text == answers.deep_view()[j as int].text);
                return false;
            }
            i += 1;
        }
        j += 1;
    }
    assert(answers.deep_view().take(answers.len() as int) =~= answers.deep_view());
    true
}

impl<'a> Question<'a> {
    #[verifier::type_invariant]
    spec fn inv(self) -> bool {
        self@.wf()
    }

    /// Makes a question of `answers`, if they obey the rules of a question.
    pub fn new(answers: Vec<&'a Person>, expected_answer: usize, reverse: bool) -> (question:
        Option<Question<'a>>)
        ensures
            question is Some <==> (QuestionView {
                answers: answers.deep_view(),
                expected_answer: expected_answer as nat,
                reverse,
            }).wf(),
            question matches Some(q) ==> q@ == (QuestionView {
                answers: answers.deep_view(),
                expected_answer: expected_answer as nat,
                reverse,
            }),
    {
        if 1 <= answers.len() && answers.len() <= MAX_ANSWERS && expected_answer < answers.len()
            && texts_differ(&answers) {
            Some(Question { answers, expected_answer, reverse })
        } else {
            None
        }
    }

    /// Makes a question of answers that are known to obey the rules.
    pub(crate) fn assemble(answers: Vec<&'a Person>, expected_answer: usize, reverse: bool) -> (q:
        Question<'a>)
        requires
            (QuestionView {
                answers: answers.deep_view(),
                expected_answer: expected_answer as nat,
                reverse,
            }).wf(),
        ensures
            q@ == (QuestionView {
                answers: answers.deep_view(),
                expected_answer: expected_answer as nat,
                reverse,
            }),
    {
        Question { answers, expected_answer, reverse }
    }

    /// The answers in the order in which they are listed.
    pub fn answers(&self) -> (answers: &Vec<&'a Person>)
        ensures
            answers.deep_view() == self@.answers,
            self@.wf(),
    {
        proof {
            use_type_invariant(self);
        }
        &self.answers
    }

    /// The position, from zero, of the answer asked for.
    pub fn expected_answer(&self) -> (index: usize)
        ensures
            index == self@.expected_answer,
            self@.wf(),
    {
        proof {
            use_type_invariant(self);
        }
        self.expected_answer
    }

    /// Whether the name is shown and the text is to be picked.
    pub fn reverse(&self) -> (reverse: bool)
        ensures
            reverse == self@.reverse,
    {
        self.reverse
    }

    /// Lays the question out. The heading holds the rule and the prompt; the
    /// list numbers the answers from one in their own order. With `by_click`
    /// the list is held back until the player asks for it.
    pub fn print(&self, by_click: bool) -> (screen: Screen)
        ensures
            screen.heading.deep_view() == seq![RULE@, prompt_of(self@)],
            screen.pause == by_click,
            screen.options.deep_view() == Seq::new(
                self@.answers.len(),
                |i: int| option_line(self@, i),
            ),
    {
        proof {
            use_type_invariant(self);
        }
        let expected = self.answers[self.expected_answer];
        let mut heading: Vec<String> = Vec::new();
        heading.push(RULE.to_owned());
        if self.reverse {
            heading.push(expected.name.clone());
        } else {
            heading.push(expected.text.clone());
        }
        let mut options: Vec<String> = Vec::new();
        let mut i: usize = 0;
        while i < self.answers.len()
            invariant
                self.answers@.len() <= MAX_ANSWERS,
                i <= self.answers@.len(),
                options.deep_view() == Seq::new(i as nat, |k: int| option_line(self@, k)),
            decreases self.answers@.len() - i,
        {
            proof {
                reveal_strlit("\t");
                reveal_strlit(". ");
            }
            let mut line = "\t".to_owned();
            let number = to_decimal((i + 1) as u64);
            line.append(number.as_str());
            line.append(". ");
            if self.reverse {
                line.append(self.answers[i].text.as_str());
            } else {
                line.append(self.answers[i].name.as_str());
            }
            assert(line@ =~= option_line(self@, i as int));
            let ghost listed = options.deep_view();
            options.push(line);
            i += 1;
            assert(options.deep_view() =~= listed.push(line@));
        }
        Screen { heading, pause: by_click, options }
    }

    /// What is shown once `answer` was given: an empty line, the verdict, and
    /// every answer with name and text, whether the player was right or not.
    pub fn feedback(&self, answer: usize) -> (lines: Vec<String>)
        ensures
            lines.deep_view() == seq![
                Seq::<char>::empty(),
                if scores(self@.expected_answer, answer as nat) {
                    CORRECT@
                } else {
                    INCORRECT@
                },
            ] + self@.answers.map_values(|p: PersonView| solution_line(p)),
    {
        let mut lines: Vec<String> = Vec::new();
        lines.push(String::new());
        if self.answer(answer) {
            lines.push(CORRECT.to_owned());
        } else {
            lines.push(INCORRECT.to_owned());
        }
        let ghost top = lines.deep_view();
        let mut i: usize = 0;
        while i < self.answers.len()
            invariant
                i <= self.answers@.len(),
                lines.deep_view() == top + self@.answers.take(i as int).map_values(
                    |p: PersonView| solution_line(p),
                ),
            decreases self.answers@.len() - i,
        {
            proof {
                reveal_strlit("> ");
                reveal_strlit(": ");
            }
            let mut line = "> ".to_owned();
            line.append(self.answers[i].name.as_str());
            line.append(": ");
            line.append(self.answers[i].text.as_str());
            assert(line@ =~= solution_line(self@.answers[i as int]));
            let ghost shown = lines.deep_view();
            lines.push(line);
            i += 1;
            assert(lines.deep_view() =~= shown.push(line@));
        }
        lines
    }

    /// Scores an answer as the player typed it, counted from one. Zero names
    /// no answer and is wrong, as is every number past the last answer.
    pub fn answer(&self, answer: usize) -> (correct: bool)
        ensures
            correct == scores(self@.expected_answer, answer as nat),
    {
        answer >= 1 && answer - 1 == self.expected_answer
    }
}

/// Scoring. The number of the expected answer, counted from one, is right;
/// the number of every other position is wrong, and so is zero.
pub proof fn lemma_scoring(expected: nat, other: nat)
    ensures
        scores(expected, expected + 1),
        other != expected ==> !scores(expected, other + 1),
        !scores(expected, 0),
{
}

/// The two modes mirror each other. One shows the text and lists names, the
/// other shows the name and lists texts, over the same answers: the prompt of
/// one mode is what the other mode lists for the expected answer.
pub proof fn lemma_modes_mirror(q: QuestionView, i: int)
    ensures
        mirrored(mirrored(q)) == q,
        mirrored(q).answers == q.answers,
        mirrored(q).expected_answer == q.expected_answer,
        prompt_of(mirrored(q)) == label_of(q, q.expected_answer as int),
        label_of(mirrored(q), q.expected_answer as int) == prompt_of(q),
        !q.reverse ==> prompt_of(q) == q.answers[q.expected_answer as int].text && label_of(q, i)
            == q.answers[i].name,
        q.reverse ==> prompt_of(q) == q.answers[q.expected_answer as int].name && label_of(q, i)
            == q.answers[i].text,
{
}

} // verus!
