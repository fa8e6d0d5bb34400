//! The record the quiz is about.

use vstd::prelude::*;
use vstd::std_specs::cmp::PartialEqSpecImpl;

verus! {

/// One person of the catalog. A record never changes once it is built.
#[derive(Debug, Hash, PartialOrd)]
pub struct Person {
    pub name: String,
    pub years: String,
    pub profession: String,
    pub text: String,
}

/// What a [`Person`] is to the contracts: its four fields as character sequences.
pub struct PersonView {
    pub name: Seq<char>,
    pub years: Seq<char>,
    pub profession: Seq<char>,
    pub text: Seq<char>,
}

impl View for Person {
    type V = PersonView;

    open spec fn view(&self) -> PersonView {
        PersonView {
            name: self.name@,
            years: self.years@,
            profession: self.profession@,
            text: self.text@,
        }
    }
}

impl DeepView for Person {
    type V = PersonView;

    open spec fn deep_view(&self) -> PersonView {
        self@
    }
}

impl Person {
    /// Builds a record from its four fields.
    pub fn new(name: &str, years: &str, profession: &str, text: &str) -> (person: Person)
        ensures
            person@ == (PersonView {
                name: name@,
                years: years@,
                profession: profession@,
                text: text@,
            }),
    {
        Person {
            name: name.to_owned(),
            years: years.to_owned(),
            profession: profession.to_owned(),
            text: text.to_owned(),
        }
    }
}

impl Clone for Person {
    fn clone(&self) -> (copy: Person)
        ensures
            copy@ == self@,
    {
        Person {
            name: self.name.clone(),
            years: self.years.clone(),
            profession: self.profession.clone(),
            text: self.text.clone(),
        }
    }
}

impl PartialEq for Person {
    /// Two records are equal when all four fields are.
    fn eq(&self, other: &Person) -> (equal: bool) {
        self.name == other.name && self.years == other.years && self.profession
            == other.profession && self.text == other.text
    }
}

impl PartialEqSpecImpl for Person {
    open spec fn obeys_eq_spec() -> bool {
        true
    }

    open spec fn eq_spec(&self, other: &Person) -> bool {
        self@ == other@
    }
}

impl Eq for Person {

}

} // verus!
