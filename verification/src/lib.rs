//! A multiple-choice quiz over a catalog of people grouped by profession.
//!
//! The library holds the rules of the quiz: how records are bucketed, how the
//! answers of a question are drawn, what a question shows, how an answer is
//! scored and how a session keeps its tally. Reading files, parsing command
//! lines and talking to the terminal are left to the program around it.
//!
//! Every function states what it returns over the views of the data: a
//! [`person::Person`] is four character sequences, the catalog a map from
//! profession to bucket, a question its answers with the expected one, and a
//! session its tally. The contracts are proved, but for the few items of
//! [`trusted`].

pub mod args;
pub mod catalog;
pub mod decimal;
pub mod input;
pub mod person;
pub mod question;
pub mod sampling;
pub mod session;
pub mod trusted;
