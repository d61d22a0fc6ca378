//! The record of every message exchanged with the owner.

use vstd::prelude::*;

use crate::time::{text_of, to_rfc3339, Moment};

verus! {

/// Where a message went.
#[derive(Clone, Copy, Debug, PartialEq, Eq, Structural)]
pub enum Direction {
    /// From the owner.
    In,
    /// To the owner.
    Out,
}

impl Direction {
    pub open spec fn spec_label(self) -> Seq<char> {
        match self {
            Direction::In => "in"@,
            Direction::Out => "out"@,
        }
    }

    /// The direction's name in the record.
    pub fn label(&self) -> (s: &'static str)
        ensures
            s@ == self.spec_label(),
    {
        match self {
            Direction::In => "in",
            Direction::Out => "out",
        }
    }
}

/// One message in the record.
#[derive(Debug)]
pub struct DmEntry {
    pub at: String,
    pub direction: Direction,
    pub content: String,
}

/// The record, and the file that it is kept in.
#[derive(Debug)]
pub struct DmLog {
    path: String,
}

impl DmLog {
    pub closed spec fn spec_path(self) -> Seq<char> {
        self.path@
    }

    pub fn new(path: String) -> (r: DmLog)
        ensures
            r.spec_path() == path@,
    {
        DmLog { path }
    }

    /// The file that the record is kept in.
    pub fn path(&self) -> (r: &str)
        ensures
            r@ == self.spec_path(),
    {
        self.path.as_str()
    }

    /// The entry for a message exchanged at `now`.
    pub fn entry(&self, direction: Direction, content: &str, now: &Moment) -> (e: DmEntry)
        requires
            now.wf(),
        ensures
            e.at@ == text_of(*now),
            e.direction == direction,
            e.content@ == content@,
    {
        DmEntry { at: to_rfc3339(now), direction, content: content.to_owned() }
    }
}

/// The record tells apart what came from the owner and what went to them.
pub proof fn law_directions_are_told_apart()
    ensures
        Direction::In.spec_label() == "in"@,
        Direction::Out.spec_label() == "out"@,
        Direction::In.spec_label() != Direction::Out.spec_label(),
{
    reveal_strlit("in");
    reveal_strlit("out");
    assert("in"@.len() == 2 && "out"@.len() == 3);
}

} // verus!
