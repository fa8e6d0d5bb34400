//! Choosing the answers of a question from one profession's bucket.
//!
//! Answers are collected one candidate at a time. A candidate is taken only if
//! no answer chosen so far shows the same text, so the answers of a question
//! can always be told apart by their texts.

use vstd::prelude::*;
use crate::person::{Person, PersonView};

verus! {

/// The most answers a question ever offers.
pub const MAX_ANSWERS: usize = 4;

/// How often a question draws at random before it fills up in bucket order.
pub const MAX_DRAWS: usize = 64;

/// The texts of `people`, in order.
pub open spec fn texts(people: Seq<PersonView>) -> Seq<Seq<char>> {
    people.map_values(|p: PersonView| p.text)
}

/// Whether one of `people` shows `text`.
pub open spec fn has_text(people: Seq<PersonView>, text: Seq<char>) -> bool {
    exists|i: int| 0 <= i < people.len() && #[trigger] people[i].text == text
}

/// No two of `people` show the same text.
pub open spec fn unique_texts(people: Seq<PersonView>) -> bool {
    forall|i: int, j: int|
        0 <= i < j < people.len() ==> #[trigger] people[i].text != #[trigger] people[j].text
}

/// Every one of `chosen` is a record of `pool`.
pub open spec fn drawn_from(chosen: Seq<PersonView>, pool: Seq<PersonView>) -> bool {
    forall|i: int| 0 <= i < chosen.len() ==> pool.contains(#[trigger] chosen[i])
}

/// How many different texts `pool` holds.
pub open spec fn distinct_texts(pool: Seq<PersonView>) -> nat {
    texts(pool).to_set().len()
}

/// How many answers a question over `pool` has: one per different text, up to
/// [`MAX_ANSWERS`].
pub open spec fn answer_count(pool: Seq<PersonView>) -> nat {
    if distinct_texts(pool) < MAX_ANSWERS {
        distinct_texts(pool)
    } else {
        MAX_ANSWERS as nat
    }
}

/// `chosen` is a full set of answers over `pool`: records of the pool with
/// pairwise different texts, as many as the pool allows.
pub open spec fn is_selection(chosen: Seq<PersonView>, pool: Seq<PersonView>) -> bool {
    &&& drawn_from(chosen, pool)
    &&& unique_texts(chosen)
    &&& chosen.len() == answer_count(pool)
}

/// The answers after `candidate` was offered: it joins at the end unless its
/// text is already shown.
pub open spec fn offered(chosen: Seq<PersonView>, candidate: PersonView) -> Seq<PersonView> {
    if has_text(chosen, candidate.text) {
        chosen
    } else {
        chosen.push(candidate)
    }
}

/// The answers after the records of `pool` were offered in order, for as long
/// as fewer than `target` answers were chosen.
pub open spec fn topped_up(
    chosen: Seq<PersonView>,
    pool: Seq<PersonView>,
    target: nat,
) -> Seq<PersonView>
    decreases pool.len(),
{
    if pool.len() == 0 || chosen.len() >= target {
        chosen
    } else {
        topped_up(offered(chosen, pool[0]), pool.skip(1), target)
    }
}

/// The answers after the records of `pool` at the positions `draws` were
/// offered in that order, a draw being skipped once `target` answers were
/// chosen.
pub open spec fn sampled(pool: Seq<PersonView>, draws: Seq<int>, target: nat) -> Seq<PersonView>
    decreases draws.len(),
{
    if draws.len() == 0 {
        Seq::empty()
    } else {
        let before = sampled(pool, draws.drop_last(), target);
        if before.len() >= target {
            before
        } else {
            offered(before, pool[draws.last()])
        }
    }
}

/// How many answers are aimed at: [`MAX_ANSWERS`], or as many as the pool has
/// records if those are fewer.
pub open spec fn target_of(pool: Seq<PersonView>) -> nat {
    if pool.len() < MAX_ANSWERS {
        pool.len()
    } else {
        MAX_ANSWERS as nat
    }
}

/// The answers that the draws `draws` lead to: the records drawn, in the
/// order drawn, topped up from the pool where the draws did not suffice.
pub open spec fn selected(pool: Seq<PersonView>, draws: Seq<int>) -> Seq<PersonView> {
    topped_up(sampled(pool, draws, target_of(pool)), pool, target_of(pool))
}

/// Every draw is a position of a pool of `size` records.
pub open spec fn draws_within(draws: Seq<int>, size: nat) -> bool {
    forall|k: int| 0 <= k < draws.len() ==> 0 <= #[trigger] draws[k] < size
}

/// `draws` is a run of draws as a question makes it over `pool`: positions
/// of the pool, drawn until enough answers were chosen or [`MAX_DRAWS`] draws
/// were made.
pub open spec fn is_run(pool: Seq<PersonView>, draws: Seq<int>) -> bool {
    &&& draws_within(draws, pool.len())
    &&& draws.len() <= MAX_DRAWS
    &&& draws.len() < MAX_DRAWS ==> sampled(pool, draws, target_of(pool)).len() == target_of(pool)
}

/// Whether one of `answers` shows `text`.
pub fn holds_text(answers: &Vec<&Person>, text: &String) -> (found: bool)
    ensures
        found == has_text(answers.deep_view(), text@),
{
    let mut i: usize = 0;
    while i < answers.len()
        invariant
            i <= answers.len(),
            forall|j: int| 0 <= j < i ==> (#[trigger] answers.deep_view()[j]).text != text@,
        decreases answers.len() - i,
    {
        if answers[i].text == *text {
            assert(answers.deep_view()[i as int].text == text@);
            return true;
        }
        i += 1;
    }
    false
}

/// Offers `candidate` to the answers chosen so far. It is appended if its text
/// is new, and the answers stay as they are otherwise.
pub fn offer<'a>(answers: &mut Vec<&'a Person>, candidate: &'a Person) -> (taken: bool)
    ensures
        taken == !has_text(old(answers).deep_view(), candidate@.text),
        final(answers).deep_view() == offered(old(answers).deep_view(), candidate@),
{
    if holds_text(answers, &candidate.text) {
        false
    } else {
        answers.push(candidate);
        true
    }
}

/// Offers the records of `pool` in order until `target` answers are chosen or
/// the pool is used up.
pub fn top_up<'a>(answers: &mut Vec<&'a Person>, pool: &'a Vec<Person>, target: usize)
    ensures
        final(answers).deep_view() == topped_up(
            old(answers).deep_view(),
            pool.deep_view(),
            target as nat,
        ),
{
    let mut i: usize = 0;
    assert(pool.deep_view().skip(0) =~= pool.deep_view());
    while answers.len() < target && i < pool.len()
        invariant
            i <= pool.len(),
            topped_up(answers.deep_view(), pool.deep_view().skip(i as int), target as nat)
                == topped_up(old(answers).deep_view(), pool.deep_view(), target as nat),
        decreases pool.len() - i,
    {
        assert(pool.deep_view().skip(i as int).skip(1) =~= pool.deep_view().skip(i + 1));
        offer(answers, &pool[i]);
        i += 1;
    }
}

/// Offering a record of the pool keeps the answers a set of pool records with
/// pairwise different texts, shows the candidate's text afterwards, and adds at
/// most one answer.
pub proof fn lemma_offered(chosen: Seq<PersonView>, candidate: PersonView, pool: Seq<PersonView>)
    requires
        unique_texts(chosen),
        drawn_from(chosen, pool),
        pool.contains(candidate),
    ensures
        unique_texts(offered(chosen, candidate)),
        drawn_from(offered(chosen, candidate), pool),
        has_text(offered(chosen, candidate), candidate.text),
        chosen.len() <= offered(chosen, candidate).len() <= chosen.len() + 1,
        forall|text: Seq<char>|
            has_text(chosen, text) ==> has_text(offered(chosen, candidate), text),
{
    let after = offered(chosen, candidate);
    if !has_text(chosen, candidate.text) {
        assert(after[chosen.len() as int].text == candidate.text);
        assert forall|text: Seq<char>| has_text(chosen, text) implies has_text(after, text) by {
            let i = choose|i: int| 0 <= i < chosen.len() && chosen[i].text == text;
            assert(after[i].text == text);
        }
    }
}

/// What topping up achieves. The answers stay a set of pool records with
/// pairwise different texts, those chosen before stay in front, and the result
/// either reaches `target` or shows every text of the records offered.
pub proof fn lemma_topped_up(
    chosen: Seq<PersonView>,
    rest: Seq<PersonView>,
    pool: Seq<PersonView>,
    target: nat,
)
    requires
        unique_texts(chosen),
        drawn_from(chosen, pool),
        drawn_from(rest, pool),
    ensures
        unique_texts(topped_up(chosen, rest, target)),
        drawn_from(topped_up(chosen, rest, target), pool),
        chosen.len() <= topped_up(chosen, rest, target).len(),
        topped_up(chosen, rest, target).len() <= target || topped_up(chosen, rest, target)
            == chosen,
        topped_up(chosen, rest, target).len() >= target || forall|j: int|
            0 <= j < rest.len() ==> has_text(
                topped_up(chosen, rest, target),
                (#[trigger] rest[j]).text,
            ),
        forall|text: Seq<char>|
            has_text(chosen, text) ==> has_text(topped_up(chosen, rest, target), text),
    decreases rest.len(),
{
    if rest.len() > 0 && chosen.len() < target {
        let next = offered(chosen, rest[0]);
        let tail = rest.skip(1);
        let end = topped_up(next, tail, target);
        lemma_offered(chosen, rest[0], pool);
        lemma_topped_up(next, tail, pool, target);
        if end.len() < target {
            assert forall|j: int| 0 <= j < rest.len() implies has_text(
                end,
                (#[trigger] rest[j]).text,
            ) by {
                if j > 0 {
                    assert(rest[j] == tail[j - 1]);
                }
            }
        }
    }
}

/// Counting the answers. A set of at most [`MAX_ANSWERS`] pool records with
/// pairwise different texts is a full selection as soon as it is as long as
/// allowed, as long as the pool, or shows every text of the pool.
pub proof fn lemma_selection_count(chosen: Seq<PersonView>, pool: Seq<PersonView>)
    requires
        unique_texts(chosen),
        drawn_from(chosen, pool),
        chosen.len() <= MAX_ANSWERS,
        chosen.len() == MAX_ANSWERS || chosen.len() >= pool.len() || forall|j: int|
            0 <= j < pool.len() ==> has_text(chosen, (#[trigger] pool[j]).text),
    ensures
        is_selection(chosen, pool),
{
    let shown = texts(chosen);
    let all = texts(pool);
    shown.unique_seq_to_set();
    all.lemma_cardinality_of_set();
    assert(shown.to_set().subset_of(all.to_set())) by {
        assert forall|text: Seq<char>| shown.to_set().contains(text) implies all.to_set()
            .contains(text) by {
            let i = choose|i: int| 0 <= i < shown.len() && shown[i] == text;
            let j = choose|j: int| 0 <= j < pool.len() && pool[j] == chosen[i];
            assert(all[j] == text);
        }
    }
    vstd::set_lib::lemma_len_subset(shown.to_set(), all.to_set());
    if chosen.len() != MAX_ANSWERS && chosen.len() < pool.len() {
        assert(all.to_set().subset_of(shown.to_set())) by {
            assert forall|text: Seq<char>| all.to_set().contains(text) implies shown.to_set()
                .contains(text) by {
                let i = choose|i: int| 0 <= i < chosen.len() && chosen[i].text == text;
                assert(shown[i] == text);
            }
        }
        assert(all.to_set() =~= shown.to_set());
    }
}

/// Whatever is drawn from a pool with a record in it, the answers it leads to
/// are a full selection over the pool.
pub proof fn lemma_selected(pool: Seq<PersonView>, draws: Seq<int>)
    requires
        pool.len() > 0,
        draws_within(draws, pool.len()),
    ensures
        is_selection(selected(pool, draws), pool),
        1 <= selected(pool, draws).len() <= MAX_ANSWERS,
{
    let target = target_of(pool);
    lemma_sampled(pool, draws, target);
    lemma_topped_up(sampled(pool, draws, target), pool, pool, target);
    lemma_selection_count(selected(pool, draws), pool);
    lemma_answer_count_positive(pool);
}

/// Drawing keeps the answers a set of pool records with pairwise different
/// texts, and stops at the target.
pub proof fn lemma_sampled(pool: Seq<PersonView>, draws: Seq<int>, target: nat)
    requires
        draws_within(draws, pool.len()),
    ensures
        unique_texts(sampled(pool, draws, target)),
        drawn_from(sampled(pool, draws, target), pool),
        sampled(pool, draws, target).len() <= target,
    decreases draws.len(),
{
    if draws.len() > 0 {
        let before = sampled(pool, draws.drop_last(), target);
        lemma_sampled(pool, draws.drop_last(), target);
        if before.len() < target {
            lemma_offered(before, pool[draws.last()], pool);
        }
    }
}

/// A pool with a record in it gives at least one answer.
pub proof fn lemma_answer_count_positive(pool: Seq<PersonView>)
    requires
        pool.len() > 0,
    ensures
        1 <= answer_count(pool) <= MAX_ANSWERS,
{
    texts(pool).lemma_cardinality_of_empty_set_is_0();
}

} // verus!
