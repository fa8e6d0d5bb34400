//! A session: the rounds played so far and what each line of input does to them.

use vstd::arithmetic::div_mod::{
    lemma_div_is_ordered, lemma_div_multiples_vanish, lemma_fundamental_div_mod, lemma_mod_bound,
};
use vstd::prelude::*;
use vstd::string::*;
use crate::decimal::{decimal, digit, to_decimal};
use crate::input::{input_in, read_line, Input};
use crate::question::{scores, Question, QuestionView};

verus! {

/// What a line of input did to the round.
#[derive(Debug, Clone, Copy, PartialEq, Eq, Structural)]
pub enum Step {
    /// The session ends; the round does not count.
    Quit,
    /// The round was answered with `answer`, rightly or not, and counts.
    Scored { answer: usize, correct: bool },
    /// The line was no answer; the round does not count.
    Rejected,
}

/// The tally as the contracts see it.
pub struct Tally {
    /// Rounds answered rightly.
    pub correct: nat,
    /// Rounds answered.
    pub total: nat,
}

/// What `input` does to a round about `question`.
pub open spec fn outcome(question: QuestionView, input: Input) -> Step {
    match input {
        Input::Quit => Step::Quit,
        Input::Answer(n) => Step::Scored {
            answer: n,
            correct: scores(question.expected_answer, n as nat),
        },
        Input::Invalid => Step::Rejected,
    }
}

/// The tally with one more round answered.
pub open spec fn recorded(tally: Tally, correct: bool) -> Tally {
    Tally {
        correct: if correct {
            tally.correct + 1
        } else {
            tally.correct
        },
        total: tally.total + 1,
    }
}

/// The tally after `step`: only an answered round counts.
pub open spec fn advanced(tally: Tally, step: Step) -> Tally {
    match step {
        Step::Scored { correct, .. } => recorded(tally, correct),
        _ => tally,
    }
}

/// The tally after the steps of a session, from an empty tally.
pub open spec fn played(steps: Seq<Step>) -> Tally
    decreases steps.len(),
{
    if steps.len() == 0 {
        Tally { correct: 0, total: 0 }
    } else {
        advanced(played(steps.drop_last()), steps.last())
    }
}

/// The share of right answers in hundredths of a percent, rounded to the
/// nearest and, halfway between two, to the even one.
pub open spec fn hundredths(correct: nat, total: nat) -> nat
    recommends
        total > 0,
{
    let scaled = 10000 * correct;
    let below = scaled / total;
    let rest = scaled % total;
    if 2 * rest > total || (2 * rest == total && below % 2 == 1) {
        below + 1
    } else {
        below
    }
}

/// `value` is the share of `correct` in `total` in hundredths of a percent,
/// rounded to the nearest and, halfway between two, to the even one.
pub open spec fn is_rounded_share(correct: nat, total: nat, value: nat) -> bool {
    let gap = if value * total >= 10000 * correct {
        value * total - 10000 * correct
    } else {
        10000 * correct - value * total
    };
    &&& 2 * gap <= total
    &&& 2 * gap == total ==> value % 2 == 0
}

/// A share in hundredths of a percent as text with two decimals.
pub open spec fn percent_text(value: nat) -> Seq<char> {
    decimal(value / 100) + seq!['.', digit((value % 100) / 10), digit(value % 10)]
}

/// The line that reports a tally with at least one round.
pub open spec fn report_text(tally: Tally) -> Seq<char> {
    "Correct answers "@ + decimal(tally.correct) + seq!['/'] + decimal(tally.total) + seq![
        ':',
        ' ',
    ] + percent_text(hundredths(tally.correct, tally.total)) + seq!['%']
}

/// The tally of a running session.
#[derive(Debug)]
pub struct Session {
    correct: u32,
    total: u32,
}

impl View for Session {
    type V = Tally;

    closed spec fn view(&self) -> Tally {
        Tally { correct: self.correct as nat, total: self.total as nat }
    }
}

impl Session {
    #[verifier::type_invariant]
    spec fn inv(self) -> bool {
        self.correct <= self.total
    }

    /// A session in which no round was played yet.
    pub fn new() -> (session: Session)
        ensures
            session@ == (Tally { correct: 0, total: 0 }),
    {
        Session { correct: 0, total: 0 }
    }

    /// Rounds answered rightly.
    pub fn correct(&self) -> (correct: u32)
        ensures
            correct == self@.correct,
            self@.correct <= self@.total,
    {
        proof {
            use_type_invariant(self);
        }
        self.correct
    }

    /// Rounds answered.
    pub fn total(&self) -> (total: u32)
        ensures
            total == self@.total,
    {
        self.total
    }

    /// Counts one more round.
    pub fn record(&mut self, correct: bool)
        requires
            old(self)@.total < u32::MAX,
        ensures
            final(self)@ == recorded(old(self)@, correct),
    {
        proof {
            use_type_invariant(&*self);
        }
        self.total = self.total + 1;
        if correct {
            self.correct = self.correct + 1;
        }
    }

    /// Plays `input` against `question`: an answer is scored and counted, and
    /// anything else leaves the tally as it is.
    pub fn apply(&mut self, question: &Question, input: Input) -> (step: Step)
        requires
            input is Answer ==> old(self)@.total < u32::MAX,
        ensures
            step == outcome(question@, input),
            final(self)@ == advanced(old(self)@, step),
    {
        match input {
            Input::Quit => Step::Quit,
            Input::Answer(n) => {
                let correct = question.answer(n);
                self.record(correct);
                Step::Scored { answer: n, correct }
            },
            Input::Invalid => Step::Rejected,
        }
    }

    /// Reads `line` and plays it against `question`. A line that ends the
    /// session and a line that is no answer leave the tally as it is; an
    /// answer is scored and counted.
    pub fn step(&mut self, question: &Question, line: &str) -> (step: Step)
        requires
            old(self)@.total < u32::MAX,
        ensures
            step == outcome(question@, input_in(line@)),
            final(self)@ == advanced(old(self)@, step),
    {
        self.apply(question, read_line(line))
    }

    /// The share of right answers in hundredths of a percent, once a round
    /// was played.
    pub fn percent(&self) -> (value: Option<u32>)
        ensures
            value is Some <==> self@.total > 0,
            value matches Some(h) ==> h == hundredths(self@.correct, self@.total) && h <= 10000,
    {
        proof {
            use_type_invariant(self);
        }
        if self.total == 0 {
            return None;
        }
        let total = self.total as u64;
        let scaled: u64 = 10000 * (self.correct as u64);
        let below = scaled / total;
        let rest = scaled % total;
        proof {
            lemma_fundamental_div_mod(scaled as int, total as int);
            lemma_mod_bound(scaled as int, total as int);
            lemma_div_is_ordered(scaled as int, 10000 * total, total as int);
            lemma_div_multiples_vanish(10000, total as int);
            assert(below <= 10000);
            if below == 10000 {
                assert(total * below == 10000 * total) by (nonlinear_arith)
                    requires
                        below == 10000,
                ;
                assert(rest == 0);
            }
        }
        let up = 2 * rest > total || (2 * rest == total && below % 2 == 1);
        let value = if up {
            below + 1
        } else {
            below
        };
        Some(value as u32)
    }

    /// The line that reports the tally, once a round was played.
    pub fn report(&self) -> (line: Option<String>)
        ensures
            line is Some <==> self@.total > 0,
            line matches Some(text) ==> text@ == report_text(self@),
    {
        match self.percent() {
            None => None,
            Some(value) => {
                proof {
                    reveal_strlit("Correct answers ");
                    reveal_strlit("/");
                    reveal_strlit(": ");
                    reveal_strlit(".");
                    reveal_strlit("%");
                }
                let value = value as u64;
                let mut text = "Correct answers ".to_owned();
                text.append(to_decimal(self.correct as u64).as_str());
                text.append("/");
                text.append(to_decimal(self.total as u64).as_str());
                text.append(": ");
                text.append(to_decimal(value / 100).as_str());
                text.append(".");
                text.append(to_decimal((value % 100) / 10).as_str());
                text.append(to_decimal(value % 10).as_str());
                text.append("%");
                Some(text)
            },
        }
    }
}

/// Accounting. After any run of steps the tally counts the answered rounds
/// and, among them, those answered rightly; a step that ends the session or
/// rejects a line counts for nothing.
pub proof fn lemma_played_counts(steps: Seq<Step>)
    ensures
        played(steps).total == steps.filter(|s: Step| s is Scored).len(),
        played(steps).correct == steps.filter(
            |s: Step| s matches Step::Scored { correct: true, .. },
        ).len(),
        played(steps).correct <= played(steps).total,
    decreases steps.len(),
{
    reveal(Seq::filter);
    if steps.len() > 0 {
        lemma_played_counts(steps.drop_last());
    }
}

/// Rounding. The share computed is the multiple of a hundredth of a percent
/// nearest to the true share, the even one of two that are equally near, and
/// no other number is.
pub proof fn lemma_hundredths_rounds(correct: nat, total: nat, other: nat)
    requires
        total > 0,
    ensures
        is_rounded_share(correct, total, hundredths(correct, total)),
        is_rounded_share(correct, total, other) ==> other == hundredths(correct, total),
{
    let scaled = 10000 * correct;
    let below = scaled / total;
    let rest = scaled % total;
    let value = hundredths(correct, total);
    lemma_fundamental_div_mod(scaled as int, total as int);
    lemma_mod_bound(scaled as int, total as int);
    assert(total * below == below * total) by (nonlinear_arith);
    if value == below {
        assert(value * total == scaled - rest);
    } else {
        assert((below + 1) * total == below * total + total) by (nonlinear_arith);
        assert(value * total == scaled - rest + total);
    }
    assert(is_rounded_share(correct, total, value));
    if is_rounded_share(correct, total, other) {
        assert(other * total == value * total + (other - value) * total) by (nonlinear_arith);
        if other > value {
            assert((other - value) * total >= total) by (nonlinear_arith)
                requires
                    other - value >= 1,
                    total > 0,
            ;
            if other - value >= 2 {
                assert((other - value) * total >= 2 * total) by (nonlinear_arith)
                    requires
                        other - value >= 2,
                        total > 0,
                ;
            }
        } else if other < value {
            assert((value - other) * total >= total) by (nonlinear_arith)
                requires
                    value - other >= 1,
                    total > 0,
            ;
            assert((other - value) * total == -((value - other) * total)) by (nonlinear_arith);
            if value - other >= 2 {
                assert((value - other) * total >= 2 * total) by (nonlinear_arith)
                    requires
                        value - other >= 2,
                        total > 0,
                ;
            }
        }
    }
}

} // verus!
