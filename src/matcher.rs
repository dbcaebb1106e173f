//! One observation of a search word on one line of one file.
use vstd::prelude::*;

verus! {

/// A line of a file on which a search word was found.
pub struct Match {
    /// Row of the line in its file, counted from 0.
    pub row: usize,
    /// Number of occurrences of the word on that line.
    pub count: usize,
    /// The search word, as configured.
    pub word: String,
    /// The line's text, trimmed.
    pub data: String,
    /// The file's path, as seen while walking.
    pub file: String,
}

/// The mathematical form of a `Match`.
pub struct MatchRecord {
    pub row: nat,
    pub count: nat,
    pub word: Seq<char>,
    pub data: Seq<char>,
    pub file: Seq<char>,
}

impl View for Match {
    type V = MatchRecord;

    open spec fn view(&self) -> MatchRecord {
        MatchRecord {
            row: self.row as nat,
            count: self.count as nat,
            word: self.word@,
            data: self.data@,
            file: self.file@,
        }
    }
}

impl Clone for Match {
    fn clone(&self) -> (r: Self)
        ensures
            r@ == self@,
    {
        Match {
            row: self.row,
            count: self.count,
            word: self.word.clone(),
            data: self.data.clone(),
            file: self.file.clone(),
        }
    }
}

/// The records that a list of matches stands for.
pub open spec fn records_of(s: Seq<Match>) -> Seq<MatchRecord> {
    s.map_values(|m: Match| m@)
}

} // verus!
