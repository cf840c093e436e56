//! The line protocol that carries snapshots: a start marker line, one record
//! per line, an end marker line.
use vstd::prelude::*;

verus! {

/// The line that opens a snapshot.
pub open spec fn start_marker() -> Seq<char> {
    "===START==="@
}

/// The line that closes a snapshot.
pub open spec fn end_marker() -> Seq<char> {
    "===END==="@
}

/// What one line means to the reader.
#[derive(Debug, Clone, Copy, PartialEq, Eq, Structural)]
pub enum LineKind {
    /// A snapshot opens: what was gathered so far is dropped.
    Begin,
    /// The snapshot is complete and goes to the scheduler.
    End,
    /// A record of the open snapshot, to be parsed.
    Record,
    /// Nothing to do: an empty line, or a line outside any snapshot.
    Skip,
}

/// Tracks whether a snapshot is open.
pub struct Framer {
    pub reading: bool,
}

impl Framer {
    /// A reader waiting for the first snapshot.
    pub fn new() -> (r: Self)
        ensures
            !r.reading,
    {
        Framer { reading: false }
    }

    /// Classifies one line, already trimmed of surrounding white space.
    pub fn feed(&mut self, line: &str) -> (r: LineKind)
        ensures
            line@ == start_marker() ==> r == LineKind::Begin && final(self).reading,
            line@ == end_marker() ==> r == LineKind::End && !final(self).reading,
            line@ != start_marker() && line@ != end_marker() ==> final(self).reading == old(
                self,
            ).reading,
            line@ != start_marker() && line@ != end_marker() && old(self).reading && line@.len()
                > 0 ==> r == LineKind::Record,
            line@ != start_marker() && line@ != end_marker() && !(old(self).reading && line@.len()
                > 0) ==> r == LineKind::Skip,
    {
        let text = line.to_string();
        proof {
            reveal_strlit("===START===");
            reveal_strlit("===END===");
            reveal_strlit("");
            assert(start_marker().len() != end_marker().len());
        }
        let start = "===START===".to_string();
        let end = "===END===".to_string();
        let empty = "".to_string();
        assert(empty@ =~= Seq::<char>::empty());
        if text == start {
            self.reading = true;
            LineKind::Begin
        } else if text == end {
            self.reading = false;
            LineKind::End
        } else if self.reading && !(text == empty) {
            assert(line@.len() > 0) by {
                if line@.len() == 0 {
                    assert(line@ =~= empty@);
                }
            }
            LineKind::Record
        } else {
            LineKind::Skip
        }
    }
}

} // verus!
