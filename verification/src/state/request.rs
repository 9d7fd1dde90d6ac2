//! Whether an answer still matters: the last question asked, and its answer.

use vstd::prelude::*;
use crate::text;

verus! {

broadcast use vstd::string::group_string_axioms;

/// Whether an answer is to the last question.
#[derive(Clone, Copy, PartialEq, Eq, Structural, Debug)]
pub enum Reply {
    Current,
    Stale,
}

/// The last question asked, while it has no answer.
pub struct Latest {
    pub asked: Option<String>,
}

impl Latest {
    /// The question that waits for its answer.
    pub open spec fn waiting(self) -> Option<Seq<char>> {
        match self.asked {
            Some(id) => Some(id@),
            None => None,
        }
    }

    pub fn new() -> (latest: Latest)
        ensures
            latest.waiting() is None,
    {
        Latest { asked: None }
    }

    /// Asks anew: any earlier question is given up.
    pub fn begin(&mut self, id: String)
        ensures
            final(self).waiting() == Some(id@),
    {
        self.asked = Some(id);
    }

    pub fn status(&self, id: &str) -> (reply: Reply)
        ensures
            reply == if self.waiting() == Some(id@) { Reply::Current } else { Reply::Stale },
    {
        match &self.asked {
            Some(asked) => if text::same(asked, id) { Reply::Current } else { Reply::Stale },
            None => Reply::Stale,
        }
    }

    /// The answer has come: the question no longer waits, if it was this one.
    pub fn settle(&mut self, id: &str) -> (reply: Reply)
        ensures
            reply == if old(self).waiting() == Some(id@) { Reply::Current } else { Reply::Stale },
            final(self).waiting() == if reply == Reply::Current { None } else { old(self).waiting() },
    {
        let reply: Reply = self.status(id);
        if reply == Reply::Current {
            self.asked = None;
        }
        reply
    }
}

impl Default for Latest {
    fn default() -> (latest: Latest)
        ensures
            latest.waiting() is None,
    {
        Latest::new()
    }
}

} // verus!
