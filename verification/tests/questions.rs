use person_quiz::catalog::Test;
use person_quiz::person::Person;
use person_quiz::question::{Question, CORRECT, INCORRECT, RULE};
use person_quiz::sampling::{holds_text, offer, top_up, MAX_ANSWERS};

fn doctors() -> Vec<Person> {
    vec![
        Person::new("A", "1900", "Doctor", "t1"),
        Person::new("B", "1910", "Doctor", "t2"),
        Person::new("C", "1920", "Doctor", "t3"),
    ]
}

fn texts_of(question: &Question) -> Vec<String> {
    question.answers().iter().map(|p| p.text.clone()).collect()
}

fn assert_is_selection(question: &Question, bucket: &Vec<Person>) {
    let answers = question.answers();
    let mut distinct: Vec<&str> = bucket.iter().map(|p| p.text.as_str()).collect();
    distinct.sort();
    distinct.dedup();
    assert_eq!(answers.len(), std::cmp::min(4, distinct.len()));
    assert!(1 <= answers.len() && answers.len() <= 4);
    for i in 0..answers.len() {
        assert!(bucket.iter().any(|p| p == answers[i]));
        for j in 0..i {
            assert_ne!(answers[i].text, answers[j].text);
        }
    }
    assert!(question.expected_answer() < answers.len());
}

#[test]
fn a_question_needs_one_to_four_answers() {
    let people = doctors();
    assert!(Question::new(Vec::new(), 0, false).is_none());
    assert!(Question::new(vec![&people[0]], 0, false).is_some());
    let more = vec![
        Person::new("A", "y", "P", "1"),
        Person::new("B", "y", "P", "2"),
        Person::new("C", "y", "P", "3"),
        Person::new("D", "y", "P", "4"),
        Person::new("E", "y", "P", "5"),
    ];
    assert!(Question::new(more.iter().take(4).collect(), 3, true).is_some());
    assert!(Question::new(more.iter().collect(), 0, true).is_none());
}

#[test]
fn a_question_needs_answers_with_different_texts() {
    let people = vec![
        Person::new("A", "1900", "Doctor", "same"),
        Person::new("B", "1910", "Doctor", "same"),
    ];
    assert!(Question::new(vec![&people[0], &people[1]], 0, false).is_none());
    let people = doctors();
    assert!(Question::new(vec![&people[0], &people[1], &people[0]], 0, false).is_none());
    let alike = vec![
        Person::new("A", "1900", "Doctor", "one"),
        Person::new("A", "1900", "Doctor", "two"),
    ];
    assert!(Question::new(vec![&alike[0], &alike[1]], 1, false).is_some());
}

#[test]
fn a_question_needs_its_expected_answer_among_the_answers() {
    let people = doctors();
    assert!(Question::new(vec![&people[0], &people[1]], 1, false).is_some());
    assert!(Question::new(vec![&people[0], &people[1]], 2, false).is_none());
    assert!(Question::new(vec![&people[0]], usize::MAX, false).is_none());
}

#[test]
fn a_question_keeps_what_it_was_made_of() {
    let people = doctors();
    let question = Question::new(vec![&people[2], &people[0]], 1, true).unwrap();
    assert_eq!(question.answers().len(), 2);
    assert!(question.answers()[0] == &people[2]);
    assert!(question.answers()[1] == &people[0]);
    assert_eq!(question.expected_answer(), 1);
    assert!(question.reverse());
}

#[test]
fn the_expected_answer_counted_from_one_is_right() {
    let people = doctors();
    for expected in 0..3 {
        let question =
            Question::new(vec![&people[0], &people[1], &people[2]], expected, false).unwrap();
        assert!(question.answer(expected + 1));
        for other in 0..3 {
            if other != expected {
                assert!(!question.answer(other + 1));
            }
        }
    }
}

#[test]
fn zero_and_numbers_past_the_list_are_wrong() {
    let people = doctors();
    let question = Question::new(vec![&people[0], &people[1]], 0, false).unwrap();
    assert!(!question.answer(0));
    assert!(question.answer(1));
    assert!(!question.answer(2));
    assert!(!question.answer(3));
    assert!(!question.answer(usize::MAX));
}

#[test]
fn a_question_shows_the_text_and_lists_the_names() {
    let people = doctors();
    let question = Question::new(vec![&people[1], &people[2], &people[0]], 2, false).unwrap();
    let screen = question.print(false);
    assert_eq!(screen.heading, vec![String::from(RULE), String::from("t1")]);
    assert!(!screen.pause);
    assert_eq!(
        screen.options,
        vec![String::from("\t1. B"), String::from("\t2. C"), String::from("\t3. A")]
    );
}

#[test]
fn in_reverse_a_question_shows_the_name_and_lists_the_texts() {
    let people = doctors();
    let question = Question::new(vec![&people[1], &people[2], &people[0]], 2, true).unwrap();
    let screen = question.print(true);
    assert_eq!(screen.heading, vec![String::from(RULE), String::from("A")]);
    assert!(screen.pause);
    assert_eq!(
        screen.options,
        vec![String::from("\t1. t2"), String::from("\t2. t3"), String::from("\t3. t1")]
    );
}

#[test]
fn both_modes_show_the_same_answers() {
    let people = doctors();
    let plain = Question::new(vec![&people[0], &people[1]], 1, false).unwrap();
    let turned = Question::new(vec![&people[0], &people[1]], 1, true).unwrap();
    let shown = plain.print(false);
    let mirrored = turned.print(false);
    assert_eq!(shown.heading[1], "t2");
    assert_eq!(mirrored.options[1], "\t2. t2");
    assert_eq!(mirrored.heading[1], "B");
    assert_eq!(shown.options[1], "\t2. B");
    assert_eq!(plain.print(false).options, shown.options);
}

#[test]
fn the_rule_is_a_line_of_dashes() {
    assert_eq!(RULE.len(), 46);
    assert!(RULE.chars().all(|c| c == '-'));
}

#[test]
fn the_feedback_gives_every_answer_away() {
    let people = doctors();
    let question = Question::new(vec![&people[1], &people[0]], 1, false).unwrap();
    assert_eq!(
        question.feedback(2),
        vec![
            String::new(),
            String::from("-- CORRECT --"),
            String::from("> B: t2"),
            String::from("> A: t1"),
        ]
    );
    assert_eq!(
        question.feedback(1),
        vec![
            String::new(),
            String::from("\u{1b}[93m-- INCORRECT --\u{1b}[0m"),
            String::from("> B: t2"),
            String::from("> A: t1"),
        ]
    );
    assert_eq!(question.feedback(0)[1], INCORRECT);
    assert_eq!(question.feedback(2)[1], CORRECT);
}

#[test]
fn an_offer_is_taken_when_the_text_is_new() {
    let people = doctors();
    let twin = Person::new("Z", "2000", "Doctor", "t1");
    let mut answers: Vec<&Person> = Vec::new();
    assert!(!holds_text(&answers, &people[0].text));
    assert!(offer(&mut answers, &people[0]));
    assert!(holds_text(&answers, &people[0].text));
    assert!(!offer(&mut answers, &people[0]));
    assert!(!offer(&mut answers, &twin));
    assert!(offer(&mut answers, &people[1]));
    assert_eq!(answers.len(), 2);
    assert!(answers[0] == &people[0]);
    assert!(answers[1] == &people[1]);
}

#[test]
fn topping_up_goes_through_the_pool_in_order() {
    let pool = vec![
        Person::new("A", "y", "P", "1"),
        Person::new("B", "y", "P", "2"),
        Person::new("C", "y", "P", "1"),
        Person::new("D", "y", "P", "3"),
        Person::new("E", "y", "P", "4"),
        Person::new("F", "y", "P", "5"),
    ];
    let mut answers: Vec<&Person> = vec![&pool[3]];
    top_up(&mut answers, &pool, 4);
    let names: Vec<&str> = answers.iter().map(|p| p.name.as_str()).collect();
    assert_eq!(names, vec!["D", "A", "B", "E"]);
    let mut answers: Vec<&Person> = Vec::new();
    top_up(&mut answers, &pool, 2);
    let names: Vec<&str> = answers.iter().map(|p| p.name.as_str()).collect();
    assert_eq!(names, vec!["A", "B"]);
    top_up(&mut answers, &pool, 2);
    assert_eq!(answers.len(), 2);
    top_up(&mut answers, &pool, 0);
    assert_eq!(answers.len(), 2);
}

#[test]
fn topping_up_stops_when_the_pool_is_used_up() {
    let pool = vec![
        Person::new("A", "y", "P", "1"),
        Person::new("B", "y", "P", "1"),
        Person::new("C", "y", "P", "2"),
    ];
    let mut answers: Vec<&Person> = Vec::new();
    top_up(&mut answers, &pool, MAX_ANSWERS);
    let names: Vec<&str> = answers.iter().map(|p| p.name.as_str()).collect();
    assert_eq!(names, vec!["A", "C"]);
}

#[test]
fn two_doctors_always_give_a_question_with_both() {
    let catalog = Test::new(vec![
        Person::new("A", "1900", "Doctor", "t1"),
        Person::new("B", "1910", "Doctor", "t2"),
    ]);
    let mut firsts = [0, 0];
    let mut expected = [0, 0];
    for _ in 0..400 {
        let question = catalog.next_question(Some("Doctor"), false);
        let mut texts = texts_of(&question);
        assert_eq!(texts.len(), 2);
        if texts[0] == "t1" {
            firsts[0] += 1;
        } else {
            firsts[1] += 1;
        }
        texts.sort();
        assert_eq!(texts, vec![String::from("t1"), String::from("t2")]);
        assert!(question.expected_answer() < 2);
        expected[question.expected_answer()] += 1;
        assert!(question.answer(question.expected_answer() + 1));
        assert!(!question.answer(2 - question.expected_answer()));
        assert!(!question.answer(0));
        assert_eq!(question.feedback(question.expected_answer() + 1)[1], "-- CORRECT --");
        assert!(!question.reverse());
    }
    assert!(firsts[0] > 0 && firsts[1] > 0);
    assert!(expected[0] > 0 && expected[1] > 0);
}

#[test]
fn a_question_is_a_full_selection_over_its_bucket() {
    let mut records = Vec::new();
    for i in 0..9 {
        records.push(Person::new(&format!("P{}", i), "y", "Painter", &format!("painted {}", i)));
    }
    for i in 0..3 {
        records.push(Person::new(&format!("W{}", i), "y", "Writer", &format!("wrote {}", i)));
    }
    records.push(Person::new("S", "y", "Singer", "sang"));
    let catalog = Test::new(records);
    for _ in 0..300 {
        for topic in ["Painter", "Writer", "Singer"] {
            let question = catalog.next_question(Some(topic), true);
            assert!(question.reverse());
            assert_is_selection(&question, catalog.bucket(topic).unwrap());
        }
    }
    assert_eq!(catalog.next_question(Some("Painter"), false).answers().len(), 4);
    assert_eq!(catalog.next_question(Some("Writer"), false).answers().len(), 3);
    assert_eq!(catalog.next_question(Some("Singer"), false).answers().len(), 1);
}

#[test]
fn a_bucket_with_few_different_texts_gives_fewer_answers() {
    let mut records = Vec::new();
    for i in 0..40 {
        records.push(Person::new(&format!("N{}", i), "y", "Poet", "the same text"));
    }
    records.push(Person::new("Other", "y", "Poet", "another text"));
    for i in 0..7 {
        records.push(Person::new(&format!("M{}", i), "y", "Monk", "silence"));
    }
    let catalog = Test::new(records);
    for _ in 0..300 {
        let question = catalog.next_question(Some("Poet"), false);
        assert_is_selection(&question, catalog.bucket("Poet").unwrap());
        assert_eq!(question.answers().len(), 2);
        let question = catalog.next_question(Some("Monk"), false);
        assert_is_selection(&question, catalog.bucket("Monk").unwrap());
        assert_eq!(question.answers().len(), 1);
        assert_eq!(question.expected_answer(), 0);
    }
}

#[test]
fn without_a_topic_every_profession_gets_its_turn() {
    let mut records = Vec::new();
    for topic in ["Painter", "Writer", "Singer"] {
        for i in 0..5 {
            let name = format!("{}{}", topic, i);
            let text = format!("{} {}", topic, i);
            records.push(Person::new(&name, "y", topic, &text));
        }
    }
    let catalog = Test::new(records);
    let mut seen = vec![0, 0, 0];
    for _ in 0..600 {
        let question = catalog.next_question(None, false);
        let topic = question.answers()[0].profession.clone();
        assert!(catalog.has_topic(&topic));
        assert!(question.answers().iter().all(|p| p.profession == topic));
        assert_is_selection(&question, catalog.bucket(&topic).unwrap());
        let at = catalog.professions().iter().position(|t| *t == topic).unwrap();
        seen[at] += 1;
    }
    assert!(seen.iter().all(|&n| n > 0));
}

#[test]
fn the_answers_come_in_the_order_drawn_and_all_orders_occur() {
    let mut records = Vec::new();
    for i in 0..4 {
        records.push(Person::new(&format!("P{}", i), "y", "Painter", &format!("painted {}", i)));
    }
    let catalog = Test::new(records);
    let mut first = [0; 4];
    let mut expected = [0; 4];
    for _ in 0..800 {
        let question = catalog.next_question(Some("Painter"), false);
        assert_eq!(question.answers().len(), 4);
        let name = &question.answers()[0].name;
        let at: usize = name[1..].parse().unwrap();
        first[at] += 1;
        expected[question.expected_answer()] += 1;
    }
    assert!(first.iter().all(|&n| n > 0));
    assert!(expected.iter().all(|&n| n > 0));
}
