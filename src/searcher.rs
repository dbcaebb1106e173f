//! The walk's policy: which entries are skipped, descended into or scanned,
//! which files are eligible by extension, and the walk's counters.
use vstd::prelude::*;
use crate::aggregate::total_count;
use crate::config::Config;
use crate::matcher::{Match, records_of};
use crate::text::{ends_with, ends_with_text};

verus! {

/// The extensions of the files that are scanned unless every file is.
pub open spec fn allowed_extensions() -> Seq<Seq<char>> {
    seq![
        ".py"@,
        ".md"@,
        ".rst"@,
        ".rs"@,
        ".js"@,
        ".html"@,
        ".txt"@,
        ".c"@,
        ".tf"@,
        ".tfstate"@,
    ]
}

/// The file name ends with one of the allowed extensions.
pub open spec fn has_allowed_extension_spec(name: Seq<char>) -> bool {
    exists|k: int| 0 <= k < allowed_extensions().len() && ends_with_text(name, #[trigger] allowed_extensions()[k])
}

/// Whether the file name ends with one of the allowed extensions.
pub fn has_allowed_extension(name: &str) -> (r: bool)
    ensures
        r == has_allowed_extension_spec(name@),
{
    let exts: Vec<&str> = vec![".py", ".md", ".rst", ".rs", ".js", ".html", ".txt", ".c", ".tf", ".tfstate"];
    assert(exts@.map_values(|e: &str| e@) =~= allowed_extensions());
    let mut k: usize = 0;
    while k < exts.len()
        invariant
            k <= exts@.len(),
            exts@.map_values(|e: &str| e@) == allowed_extensions(),
            forall|j: int| 0 <= j < k ==> !ends_with_text(name@, #[trigger] allowed_extensions()[j]),
        decreases exts@.len() - k,
    {
        assert(exts@[k as int]@ == allowed_extensions()[k as int]);
        if ends_with(name, exts[k]) {
            return true;
        }
        k += 1;
    }
    false
}

/// The file is scanned: every file is, or its name has an allowed extension.
pub open spec fn file_eligible(name: Seq<char>, all_files: bool) -> bool {
    all_files || has_allowed_extension_spec(name)
}

/// What the walk does with a directory entry.
#[derive(Clone, Copy, Debug, PartialEq, Eq)]
pub enum EntryAction {
    /// Leave it out, counting nothing.
    Skip,
    /// Walk the directory.
    Descend,
    /// Hand the file to the scanner.
    Scan,
}

/// The name is that of a hidden entry.
pub open spec fn is_hidden(name: Seq<char>) -> bool {
    name.len() > 0 && name[0] == '.'
}

/// What the walk does with an entry named `name`.
pub open spec fn entry_action_spec(name: Seq<char>, is_dir: bool, hidden: bool, recursive: bool) -> EntryAction {
    if !hidden && is_hidden(name) {
        EntryAction::Skip
    } else if is_dir {
        if recursive {
            EntryAction::Descend
        } else {
            EntryAction::Skip
        }
    } else {
        EntryAction::Scan
    }
}

/// What the walk does with an entry: hidden entries are skipped unless
/// hidden ones are included; directories are descended into only in a
/// recursive search; other entries are scanned.
pub fn entry_action(name: &str, is_dir: bool, config: &Config) -> (r: EntryAction)
    ensures
        r == entry_action_spec(name@, is_dir, config.hidden, config.recursive),
{
    if !config.hidden && name.unicode_len() > 0 && name.get_char(0) == '.' {
        EntryAction::Skip
    } else if is_dir {
        if config.recursive {
            EntryAction::Descend
        } else {
            EntryAction::Skip
        }
    } else {
        EntryAction::Scan
    }
}

/// The walk's counters, shared by the whole descent.
pub struct Stats {
    /// Files met.
    pub seen: usize,
    /// Files left out for their extension.
    pub skipped: usize,
    /// Files whose lines were read.
    pub analyzed: usize,
}

impl Stats {
    /// Every file is counted as seen before it is skipped or analyzed.
    pub open spec fn wf(&self) -> bool {
        self.analyzed + self.skipped <= self.seen
    }

    /// All counters at zero.
    pub fn new() -> (r: Self)
        ensures
            r.seen == 0,
            r.skipped == 0,
            r.analyzed == 0,
            r.wf(),
    {
        Self { analyzed: 0, skipped: 0, seen: 0 }
    }

    /// Counts a file named `name` as seen, and as skipped where its
    /// extension leaves it out; returns whether it is to be scanned.
    pub fn admit_file(&mut self, name: &str, config: &Config) -> (r: bool)
        requires
            old(self).wf(),
            old(self).seen < usize::MAX,
        ensures
            r == file_eligible(name@, config.all_files),
            final(self).seen == old(self).seen + 1,
            final(self).skipped == old(self).skipped + if r {
                0int
            } else {
                1int
            },
            final(self).analyzed == old(self).analyzed,
            final(self).wf(),
    {
        self.seen = self.seen + 1;
        if !config.all_files && !has_allowed_extension(name) {
            self.skipped = self.skipped + 1;
            return false;
        }
        true
    }

    /// Counts an admitted file as analyzed.
    pub fn record_analyzed(&mut self)
        requires
            old(self).analyzed + old(self).skipped < old(self).seen,
        ensures
            final(self).analyzed == old(self).analyzed + 1,
            final(self).seen == old(self).seen,
            final(self).skipped == old(self).skipped,
            final(self).wf(),
    {
        self.analyzed = self.analyzed + 1;
    }

    /// Files that were admitted but could not be read.
    pub fn unreadable(&self) -> (r: usize)
        requires
            self.wf(),
        ensures
            r == self.seen - self.analyzed - self.skipped,
    {
        self.seen - self.analyzed - self.skipped
    }
}

/// The sum of the counts of the records, where it fits in a `usize`.
pub fn total_matches(results: &Vec<Match>) -> (r: Option<usize>)
    ensures
        r matches Some(t) ==> t == total_count(records_of(results@)),
        r is None <==> total_count(records_of(results@)) > usize::MAX,
{
    let ghost s = records_of(results@);
    let mut sum: usize = 0;
    let mut i: usize = 0;
    assert(s.take(0) =~= Seq::<crate::matcher::MatchRecord>::empty());
    while i < results.len()
        invariant
            i <= results@.len(),
            s == records_of(results@),
            sum as int == total_count(s.take(i as int)),
        decreases results@.len() - i,
    {
        assert(s.take(i + 1).drop_last() =~= s.take(i as int));
        assert(s[i as int] == results@[i as int]@);
        if results[i].count > usize::MAX - sum {
            proof {
                crate::aggregate::lemma_total_prefix(s, i + 1);
            }
            return None;
        }
        sum = sum + results[i].count;
        i += 1;
    }
    assert(s.take(results@.len() as int) =~= s);
    Some(sum)
}

} // verus!
