use std::collections::hash_map::DefaultHasher;
use std::hash::{Hash, Hasher};

use person_quiz::args::Args;
use person_quiz::catalog::Test;
use person_quiz::person::Person;

fn sample_records() -> Vec<Person> {
    vec![
        Person::new("Ada Lovelace", "1815-1852", "Mathematician", "wrote the first program"),
        Person::new("Marie Curie", "1867-1934", "Physicist", "found polonium and radium"),
        Person::new("Emmy Noether", "1882-1935", "Mathematician", "tied symmetry to conservation"),
        Person::new("Lise Meitner", "1878-1968", "Physicist", "explained nuclear fission"),
        Person::new("Sofia Kovalevskaya", "1850-1891", "Mathematician", "studied the spinning top"),
        Person::new("Hippocrates", "460-370 BC", "Doctor", "is called the father of medicine"),
    ]
}

#[test]
fn person_new_keeps_the_four_fields() {
    let p = Person::new("Ada", "1815-1852", "Mathematician", "wrote the first program");
    assert_eq!(p.name, "Ada");
    assert_eq!(p.years, "1815-1852");
    assert_eq!(p.profession, "Mathematician");
    assert_eq!(p.text, "wrote the first program");
}

#[test]
fn persons_are_equal_when_all_four_fields_are() {
    let a = Person::new("A", "1900", "Doctor", "t1");
    assert!(a == Person::new("A", "1900", "Doctor", "t1"));
    assert!(a != Person::new("B", "1900", "Doctor", "t1"));
    assert!(a != Person::new("A", "1901", "Doctor", "t1"));
    assert!(a != Person::new("A", "1900", "Nurse", "t1"));
    assert!(a != Person::new("A", "1900", "Doctor", "t2"));
}

#[test]
fn persons_are_ordered_field_by_field() {
    let a = Person::new("A", "1900", "Doctor", "t1");
    assert!(a < Person::new("B", "1800", "Actor", "a"));
    assert!(a < Person::new("A", "1901", "Actor", "a"));
    assert!(a < Person::new("A", "1900", "Nurse", "a"));
    assert!(a < Person::new("A", "1900", "Doctor", "t2"));
    assert!(a <= Person::new("A", "1900", "Doctor", "t1"));
    assert!(!(a < Person::new("A", "1900", "Doctor", "t1")));
}

#[test]
fn equal_persons_hash_alike() {
    let hash_of = |p: &Person| {
        let mut hasher = DefaultHasher::new();
        p.hash(&mut hasher);
        hasher.finish()
    };
    let a = Person::new("A", "1900", "Doctor", "t1");
    assert_eq!(hash_of(&a), hash_of(&Person::new("A", "1900", "Doctor", "t1")));
    assert_eq!(hash_of(&a), hash_of(&a.clone()));
}

#[test]
fn a_cloned_person_equals_the_first() {
    let a = Person::new("A", "1900", "Doctor", "t1");
    let b = a.clone();
    assert!(a == b);
    assert_eq!(b.text, "t1");
}

#[test]
fn args_hand_out_the_topic_as_text() {
    let with = Args { topic: Some(String::from("Doctor")), reverse: true, by_click: false };
    assert_eq!(with.topic(), Some("Doctor"));
    assert!(with.reverse);
    assert!(!with.by_click);
    let without = Args { topic: None, reverse: false, by_click: true };
    assert_eq!(without.topic(), None);
}

#[test]
fn professions_are_listed_once_in_order_of_first_appearance() {
    let catalog = Test::new(sample_records());
    let expected = vec![
        String::from("Mathematician"),
        String::from("Physicist"),
        String::from("Doctor"),
    ];
    assert_eq!(catalog.professions(), &expected);
}

#[test]
fn a_bucket_holds_the_records_of_its_profession_in_their_order() {
    let catalog = Test::new(sample_records());
    let bucket = catalog.bucket("Mathematician").unwrap();
    let names: Vec<&str> = bucket.iter().map(|p| p.name.as_str()).collect();
    assert_eq!(names, vec!["Ada Lovelace", "Emmy Noether", "Sofia Kovalevskaya"]);
    let bucket = catalog.bucket("Physicist").unwrap();
    let names: Vec<&str> = bucket.iter().map(|p| p.name.as_str()).collect();
    assert_eq!(names, vec!["Marie Curie", "Lise Meitner"]);
    let bucket = catalog.bucket("Doctor").unwrap();
    assert_eq!(bucket.len(), 1);
    let expected =
        Person::new("Hippocrates", "460-370 BC", "Doctor", "is called the father of medicine");
    assert!(bucket[0] == expected);
}

#[test]
fn every_record_lies_in_exactly_one_bucket() {
    let records = sample_records();
    let catalog = Test::new(sample_records());
    let mut held = 0;
    for topic in catalog.professions() {
        let bucket = catalog.bucket(topic).unwrap();
        assert!(!bucket.is_empty());
        for person in bucket {
            assert_eq!(&person.profession, topic);
            assert!(records.iter().any(|r| r == person));
        }
        held += bucket.len();
    }
    assert_eq!(held, records.len());
    for record in &records {
        let homes = catalog
            .professions()
            .iter()
            .filter(|topic| catalog.bucket(topic).unwrap().iter().any(|p| p == record))
            .count();
        assert_eq!(homes, 1);
    }
}

#[test]
fn equal_records_are_both_kept() {
    let twin = || Person::new("A", "1900", "Doctor", "t1");
    let catalog = Test::new(vec![twin(), twin()]);
    assert_eq!(catalog.bucket("Doctor").unwrap().len(), 2);
}

#[test]
fn an_unknown_profession_has_no_bucket() {
    let catalog = Test::new(sample_records());
    assert!(catalog.has_topic("Doctor"));
    assert!(!catalog.has_topic("doctor"));
    assert!(!catalog.has_topic(""));
    assert!(catalog.bucket("Painter").is_none());
}

#[test]
fn a_catalog_without_records_is_empty() {
    let catalog = Test::new(Vec::new());
    assert!(catalog.is_empty());
    assert!(catalog.professions().is_empty());
    assert!(!catalog.has_topic("Doctor"));
    assert_eq!(catalog.summary(), vec![String::from("List of topics")]);
    assert!(!Test::new(sample_records()).is_empty());
}

#[test]
fn the_summary_counts_the_records_of_each_profession() {
    let catalog = Test::new(sample_records());
    assert_eq!(
        catalog.summary(),
        vec![
            String::from("List of topics"),
            String::from("Mathematician: 3"),
            String::from("Physicist: 2"),
            String::from("Doctor: 1"),
        ]
    );
}

#[test]
fn the_summary_counts_past_nine() {
    let mut records = Vec::new();
    for i in 0..12 {
        records.push(Person::new("N", "y", "Poet", &format!("text {}", i)));
    }
    let catalog = Test::new(records);
    assert_eq!(catalog.summary()[1], "Poet: 12");
}
