//! The catalog: every record in the bucket of its profession.

use rand::thread_rng;
use vstd::prelude::*;
use vstd::string::*;
use crate::decimal::{decimal, to_decimal};
use crate::person::{Person, PersonView};
use crate::question::Question;
use crate::sampling::{
    draws_within, is_run, is_selection, lemma_sampled, lemma_selected, offer, sampled, selected,
    target_of, top_up, MAX_ANSWERS, MAX_DRAWS,
};
use crate::trusted::below;

verus! {

/// The records of `records` whose profession is `topic`, in their order.
pub open spec fn bucket_of(records: Seq<PersonView>, topic: Seq<char>) -> Seq<PersonView> {
    records.filter(|p: PersonView| p.profession == topic)
}

/// The professions of `records`, each once, in the order of first appearance.
pub open spec fn topics_of(records: Seq<PersonView>) -> Seq<Seq<char>>
    decreases records.len(),
{
    if records.len() == 0 {
        Seq::empty()
    } else {
        let before = topics_of(records.drop_last());
        let topic = records.last().profession;
        if before.contains(topic) {
            before
        } else {
            before.push(topic)
        }
    }
}

/// The buckets of `records`: each profession that occurs, with its records.
pub open spec fn grouped(records: Seq<PersonView>) -> Map<Seq<char>, Seq<PersonView>> {
    Map::new(
        |topic: Seq<char>| topics_of(records).contains(topic),
        |topic: Seq<char>| bucket_of(records, topic),
    )
}

/// The line of the summary for a profession with `count` records.
pub open spec fn topic_line(topic: Seq<char>, count: nat) -> Seq<char> {
    topic + seq![':', ' '] + decimal(count)
}

/// The catalog of the quiz. It is built once and only read afterwards.
#[derive(Debug)]
pub struct Test {
    data: Vec<Vec<Person>>,
    professions: Vec<String>,
}

impl View for Test {
    type V = Map<Seq<char>, Seq<PersonView>>;

    /// The buckets by profession.
    closed spec fn view(&self) -> Map<Seq<char>, Seq<PersonView>> {
        Map::new(
            |topic: Seq<char>| self.professions.deep_view().contains(topic),
            |topic: Seq<char>| self.data@[self.professions.deep_view().index_of(topic)].deep_view(),
        )
    }
}

/// Where `topic` stands in `professions`, if it does.
fn position(professions: &Vec<String>, topic: &String) -> (found: Option<usize>)
    ensures
        match found {
            Some(i) => i < professions.len() && professions.deep_view()[i as int] == topic@,
            None => !professions.deep_view().contains(topic@),
        },
{
    let mut i: usize = 0;
    while i < professions.len()
        invariant
            i <= professions.len(),
            forall|k: int| 0 <= k < i ==> professions.deep_view()[k] != topic@,
        decreases professions.len() - i,
    {
        if professions[i] == *topic {
            return Some(i);
        }
        i += 1;
    }
    None
}

impl Test {
    #[verifier::type_invariant]
    spec fn inv(self) -> bool {
        &&& self.data@.len() == self.professions@.len()
        &&& self.professions.deep_view().no_duplicates()
        &&& forall|i: int| 0 <= i < self.data@.len() ==> (#[trigger] self.data@[i])@.len() > 0
        &&& forall|i: int, j: int|
            0 <= i < self.data@.len() && 0 <= j < self.data@[i]@.len() ==> (
            #[trigger] self.data@[i]@[j])@.profession == self.professions.deep_view()[i]
    }

    /// The professions in the order in which the catalog lists them.
    pub closed spec fn topics(&self) -> Seq<Seq<char>> {
        self.professions.deep_view()
    }

    /// What holds of every catalog: each profession is listed once and has a
    /// bucket, no bucket is empty, and a bucket holds records of its own
    /// profession only.
    pub open spec fn wf(&self) -> bool {
        &&& self.topics().no_duplicates()
        &&& forall|topic: Seq<char>| self@.dom().contains(topic) <==> self.topics().contains(topic)
        &&& forall|topic: Seq<char>| #[trigger]
            self@.dom().contains(topic) ==> self@[topic].len() > 0
        &&& forall|topic: Seq<char>, j: int|
            self@.dom().contains(topic) && 0 <= j < self@[topic].len() ==> (
            #[trigger] self@[topic][j]).profession == topic
    }

    /// Buckets `records` by profession. Professions are listed in the order in
    /// which they first occur, and the records of a bucket keep their order.
    pub fn new(records: Vec<Person>) -> (catalog: Test)
        ensures
            catalog@ == grouped(records.deep_view()),
            catalog.topics() == topics_of(records.deep_view()),
            catalog.wf(),
    {
        let ghost all = records.deep_view();
        let ghost source = records@;
        let mut data: Vec<Vec<Person>> = Vec::new();
        let mut professions: Vec<String> = Vec::new();
        for person in it: records.into_iter()
            invariant
                it.seq() == source,
                all.len() == source.len(),
                forall|i: int| 0 <= i < source.len() ==> all[i] == (#[trigger] source[i])@,
                data@.len() == professions@.len(),
                professions.deep_view() == topics_of(all.take(it.index() as int)),
                forall|k: int|
                    0 <= k < data@.len() ==> (#[trigger] data@[k]).deep_view() == bucket_of(
                        all.take(it.index() as int),
                        professions.deep_view()[k],
                    ),
                forall|k: int| 0 <= k < data@.len() ==> (#[trigger] data@[k])@.len() > 0,
                forall|k: int, j: int|
                    0 <= k < data@.len() && 0 <= j < data@[k]@.len() ==> (
                    #[trigger] data@[k]@[j])@.profession == professions.deep_view()[k],
        {
            let ghost n = it.index() as int;
            let ghost seen = all.take(n);
            let ghost now = all.take(n + 1);
            let ghost topic = person@.profession;
            proof {
                assert(now.drop_last() =~= seen);
                assert(now =~= seen.push(person@));
            }
            let at = match position(&professions, &person.profession) {
                Some(at) => at,
                None => {
                    proof {
                        lemma_unlisted_is_empty(seen, topic);
                    }
                    professions.push(person.profession.clone());
                    data.push(Vec::new());
                    professions.len() - 1
                },
            };
            let ghost before = data@;
            data[at].push(person);
            proof {
                assert forall|k: int| 0 <= k < data@.len() implies (#[trigger] data@[k]).deep_view()
                    == bucket_of(now, professions.deep_view()[k]) by {
                    let key = professions.deep_view()[k];
                    seen.lemma_filter_push(person@, |p: PersonView| p.profession == key);
                    if k != at {
                        assert(data@[k] == before[k]);
                        lemma_topics_cover(now, key);
                    }
                }
            }
        }
        proof {
            assert(all.take(all.len() as int) =~= all);
            lemma_topics_cover(all, Seq::empty());
        }
        Test { data, professions }
    }

    /// The professions in the order in which the catalog lists them.
    pub fn professions(&self) -> (professions: &Vec<String>)
        ensures
            professions.deep_view() == self.topics(),
            self.wf(),
    {
        proof {
            use_type_invariant(self);
        }
        &self.professions
    }

    /// Whether the catalog holds no record at all.
    pub fn is_empty(&self) -> (empty: bool)
        ensures
            empty == (self.topics().len() == 0),
    {
        self.professions.len() == 0
    }

    /// Whether `topic` is a profession of the catalog.
    pub fn has_topic(&self, topic: &str) -> (known: bool)
        ensures
            known == self@.dom().contains(topic@),
    {
        let wanted = topic.to_owned();
        position(&self.professions, &wanted).is_some()
    }

    /// The bucket of `topic`, if it is a profession of the catalog.
    pub fn bucket(&self, topic: &str) -> (bucket: Option<&Vec<Person>>)
        ensures
            bucket is Some <==> self@.dom().contains(topic@),
            bucket matches Some(records) ==> records.deep_view() == self@[topic@],
            self.wf(),
    {
        proof {
            use_type_invariant(self);
        }
        let wanted = topic.to_owned();
        match position(&self.professions, &wanted) {
            Some(at) => Some(&self.data[at]),
            None => None,
        }
    }

    /// What a session shows first: a heading, then every profession with the
    /// number of its records, in the order of the catalog.
    pub fn summary(&self) -> (lines: Vec<String>)
        ensures
            lines.deep_view() == seq!["List of topics"@] + self.topics().map_values(
                |topic: Seq<char>| topic_line(topic, self@[topic].len()),
            ),
    {
        proof {
            use_type_invariant(self);
        }
        let ghost topics = self.professions.deep_view();
        let ghost entry = |topic: Seq<char>| topic_line(topic, self@[topic].len());
        let mut lines: Vec<String> = Vec::new();
        lines.push("List of topics".to_owned());
        let ghost top = lines.deep_view();
        let mut i: usize = 0;
        while i < self.professions.len()
            invariant
                self.inv(),
                topics == self.professions.deep_view(),
                entry == |topic: Seq<char>| topic_line(topic, self@[topic].len()),
                i <= self.professions@.len(),
                lines.deep_view() == top + topics.take(i as int).map_values(entry),
            decreases self.professions@.len() - i,
        {
            proof {
                reveal_strlit(": ");
            }
            let mut line = self.professions[i].clone();
            line.append(": ");
            line.append(to_decimal(self.data[i].len() as u64).as_str());
            assert(line@ =~= entry(topics[i as int]));
            let ghost shown = lines.deep_view();
            lines.push(line);
            i += 1;
            assert(lines.deep_view() =~= shown.push(line@));
        }
        lines
    }

    /// Draws the next question.
    ///
    /// With a `topic` the question is about that profession, which must be one
    /// of the catalog; without one a profession is drawn at random, so the
    /// catalog must not be empty. The answers are drawn at random from the
    /// bucket, a record being kept when its text is new, until as many are
    /// chosen as the bucket allows. After [`MAX_DRAWS`] draws the bucket is
    /// gone through in order instead, so that a bucket with few different texts
    /// cannot keep the drawing going. The expected answer is drawn among the
    /// answers chosen.
    ///
    /// Whatever is drawn, the question is a full selection over the bucket of
    /// its profession.
    pub fn next_question(&self, topic: Option<&str>, reverse: bool) -> (question: Question<'_>)
        requires
            match topic {
                Some(t) => self@.dom().contains(t@),
                None => self.topics().len() > 0,
            },
        ensures
            question@.wf(),
            question@.reverse == reverse,
            self.asks(topic, question@.answers),
            self.wf(),
    {
        proof {
            use_type_invariant(self);
        }
        let mut rng = thread_rng();
        let at = match topic {
            Some(t) => {
                let wanted = t.to_owned();
                position(&self.professions, &wanted).unwrap()
            },
            None => below(&mut rng, self.professions.len()),
        };
        let persons = &self.data[at];
        let ghost asked = self.professions.deep_view()[at as int];
        let ghost pool = persons.deep_view();
        assert(self@.dom().contains(asked) && self@[asked] == pool);
        let target = if persons.len() < MAX_ANSWERS {
            persons.len()
        } else {
            MAX_ANSWERS
        };
        let mut answers: Vec<&Person> = Vec::new();
        let mut count: usize = 0;
        let ghost mut draws: Seq<int> = Seq::empty();
        while answers.len() < target && count < MAX_DRAWS
            invariant
                pool == persons.deep_view(),
                persons@.len() > 0,
                target == target_of(pool),
                count <= MAX_DRAWS,
                draws.len() == count,
                draws_within(draws, pool.len()),
                answers.deep_view() == sampled(pool, draws, target as nat),
            decreases MAX_DRAWS - count,
        {
            let at = below(&mut rng, persons.len());
            proof {
                assert(draws.push(at as int).drop_last() =~= draws);
                draws = draws.push(at as int);
            }
            offer(&mut answers, &persons[at]);
            count += 1;
        }
        proof {
            lemma_sampled(pool, draws, target as nat);
            assert(is_run(pool, draws));
            lemma_selected(pool, draws);
        }
        top_up(&mut answers, persons, target);
        let expected_answer = below(&mut rng, answers.len());
        Question::assemble(answers, expected_answer, reverse)
    }

    /// What a question about `topic` may list: what some run of draws leads
    /// to in the bucket of that profession, or of some profession of the
    /// catalog where none is given. The draws went on until enough answers
    /// were chosen or [`MAX_DRAWS`] were made. What they lead to is always a
    /// full selection over the bucket.
    pub open spec fn asks(&self, topic: Option<&str>, answers: Seq<PersonView>) -> bool {
        exists|asked: Seq<char>, draws: Seq<int>|
            {
                &&& #[trigger] self@.dom().contains(asked)
                &&& topic matches Some(t) ==> asked == t@
                &&& #[trigger] is_run(self@[asked], draws)
                &&& answers == selected(self@[asked], draws)
                &&& is_selection(answers, self@[asked])
            }
    }
}

/// A profession is listed exactly when a record has it.
pub proof fn lemma_topics_cover(records: Seq<PersonView>, topic: Seq<char>)
    ensures
        topics_of(records).contains(topic) <==> exists|i: int|
            0 <= i < records.len() && (#[trigger] records[i]).profession == topic,
        topics_of(records).no_duplicates(),
    decreases records.len(),
{
    if records.len() > 0 {
        let front = records.drop_last();
        lemma_topics_cover(front, topic);
        lemma_topics_cover(front, records.last().profession);
        let before = topics_of(front);
        if exists|i: int| 0 <= i < records.len() && (#[trigger] records[i]).profession == topic {
            let i = choose|i: int|
                0 <= i < records.len() && (#[trigger] records[i]).profession == topic;
            if i < front.len() {
                assert(front[i].profession == topic);
                assert(topics_of(records)[before.index_of(topic)] == topic);
            } else if !before.contains(topic) {
                assert(topics_of(records)[before.len() as int] == topic);
            }
        }
    }
}

/// A profession that is not listed has an empty bucket.
pub proof fn lemma_unlisted_is_empty(records: Seq<PersonView>, topic: Seq<char>)
    requires
        !topics_of(records).contains(topic),
    ensures
        bucket_of(records, topic) == Seq::<PersonView>::empty(),
    decreases records.len(),
{
    reveal(Seq::filter);
    if records.len() > 0 {
        lemma_topics_cover(records, topic);
        lemma_topics_cover(records.drop_last(), topic);
        lemma_unlisted_is_empty(records.drop_last(), topic);
    }
}

/// A record is as often in the bucket of its own profession as among the
/// records, and never in the bucket of another.
pub proof fn lemma_bucket_counts(records: Seq<PersonView>, topic: Seq<char>, record: PersonView)
    ensures
        bucket_of(records, topic).to_multiset().count(record) == if record.profession == topic {
            records.to_multiset().count(record)
        } else {
            0
        },
    decreases records.len(),
{
    broadcast use vstd::seq_lib::to_multiset_build;

    if records.len() == 0 {
        reveal(Seq::filter);
        assert(records =~= Seq::<PersonView>::empty());
        Seq::<PersonView>::empty().to_multiset_ensures();
    } else {
        let front = records.drop_last();
        let last = records.last();
        lemma_bucket_counts(front, topic, record);
        assert(records =~= front.push(last));
        front.lemma_filter_push(last, |p: PersonView| p.profession == topic);
    }
}

/// Bucketing loses nothing and doubles nothing. Every record lies in the
/// bucket of its own profession, as often as among the records; a bucket holds
/// nothing but records of its profession; so the buckets together are the
/// records, each in exactly one of them.
pub proof fn lemma_bucketing_complete(records: Seq<PersonView>)
    ensures
        forall|record: PersonView| #[trigger]
            records.contains(record) ==> grouped(records).dom().contains(record.profession)
                && grouped(records)[record.profession].contains(record),
        forall|topic: Seq<char>, record: PersonView|
            grouped(records).dom().contains(topic) && #[trigger] grouped(records)[topic].contains(
                record,
            ) ==> records.contains(record) && record.profession == topic,
        forall|record: PersonView| #[trigger]
            records.contains(record) ==> grouped(records)[record.profession].to_multiset().count(
                record,
            ) == records.to_multiset().count(record),
{
    broadcast use vstd::seq_lib::to_multiset_contains;

    assert forall|record: PersonView| #[trigger] records.contains(record) implies grouped(
        records,
    ).dom().contains(record.profession) && grouped(records)[record.profession].contains(record)
        && grouped(records)[record.profession].to_multiset().count(record)
        == records.to_multiset().count(record) by {
        lemma_topics_cover(records, record.profession);
        lemma_bucket_counts(records, record.profession, record);
    }
    assert forall|topic: Seq<char>, record: PersonView|
        grouped(records).dom().contains(topic) && #[trigger] grouped(records)[topic].contains(
            record,
        ) implies records.contains(record) && record.profession == topic by {
        lemma_bucket_counts(records, topic, record);
    }
}

} // verus!
