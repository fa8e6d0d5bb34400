//! The options of a session.

use vstd::prelude::*;

verus! {

/// How a session is to be played.
#[derive(Debug)]
pub struct Args {
    /// The one profession to ask about; every question draws its own without.
    pub topic: Option<String>,
    /// Show the name and let the text be picked, in place of the other way round.
    pub reverse: bool,
    /// Hold the list of answers back until the player asks for it.
    pub by_click: bool,
}

impl Args {
    /// The profession to ask about, if one was chosen.
    pub fn topic(&self) -> (topic: Option<&str>)
        ensures
            match topic {
                Some(t) => self.topic matches Some(own) && t@ == own@,
                None => self.topic is None,
            },
    {
        match &self.topic {
            Some(own) => Some(own.as_str()),
            None => None,
        }
    }
}

} // verus!
