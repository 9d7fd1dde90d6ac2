//! What tabs, panes and divisions are addressed by.

use vstd::prelude::*;
use crate::number;

verus! {

/// A tab.
#[derive(Clone, Copy, PartialEq, Eq, Structural, Debug)]
pub struct ViewId {
    pub number: u64,
}

/// A pane of the screen.
#[derive(Clone, Copy, PartialEq, Eq, Structural, Debug)]
pub struct PaneId {
    pub number: u64,
}

/// A division between two parts of the screen.
#[derive(Clone, Copy, PartialEq, Eq, Structural, Debug)]
pub struct SplitId {
    pub number: u64,
}

/// What a text reads as an identifier.
pub open spec fn read_id(written: Seq<char>) -> Option<nat> {
    number::read_up_to(written, u64::MAX as nat)
}

/// An identifier reads back as what it was.
pub proof fn an_id_reads_back(id: u64)
    ensures
        read_id(number::written(id as nat)) == Some(id as nat),
{
    number::written_reads_back(id as nat);
}

impl ViewId {
    pub fn to_text(self) -> (text: String)
        ensures
            text@ == number::written(self.number as nat),
    {
        number::decimal(self.number as u128)
    }

    pub fn parse(written: &str) -> (id: Option<ViewId>)
        ensures
            match id {
                Some(id) => read_id(written@) == Some(id.number as nat),
                None => read_id(written@) is None,
            },
    {
        match number::parse_up_to(written, u64::MAX) {
            Some(number) => Some(ViewId { number }),
            None => None,
        }
    }
}

impl PaneId {
    pub fn to_text(self) -> (text: String)
        ensures
            text@ == number::written(self.number as nat),
    {
        number::decimal(self.number as u128)
    }

    pub fn parse(written: &str) -> (id: Option<PaneId>)
        ensures
            match id {
                Some(id) => read_id(written@) == Some(id.number as nat),
                None => read_id(written@) is None,
            },
    {
        match number::parse_up_to(written, u64::MAX) {
            Some(number) => Some(PaneId { number }),
            None => None,
        }
    }
}

impl SplitId {
    pub fn to_text(self) -> (text: String)
        ensures
            text@ == number::written(self.number as nat),
    {
        number::decimal(self.number as u128)
    }

    pub fn parse(written: &str) -> (id: Option<SplitId>)
        ensures
            match id {
                Some(id) => read_id(written@) == Some(id.number as nat),
                None => read_id(written@) is None,
            },
    {
        match number::parse_up_to(written, u64::MAX) {
            Some(number) => Some(SplitId { number }),
            None => None,
        }
    }
}

} // verus!
