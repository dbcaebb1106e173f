//! Scanning the lines of one file: exclusion, the empty-line bailout and
//! one match record per word found on a line.
use vstd::prelude::*;
use crate::config::{Config, texts_of};
use crate::matcher::{Match, MatchRecord, records_of};
use crate::pattern::{WordPattern, match_count};
use crate::text::{contains, contains_text, lower_of, lowercase, trim, trim_of};

verus! {

/// Number of consecutive empty lines after which the rest of a file is
/// abandoned.
pub const MAX_EMPTY_RUN: usize = 5;

/// The records of one line, for the words `words[..k]`, given each word's
/// count on the line and the line's trimmed text.
pub open spec fn row_records(
    file: Seq<char>,
    row: nat,
    data: Seq<char>,
    words: Seq<Seq<char>>,
    counts: Seq<nat>,
    k: int,
) -> Seq<MatchRecord>
    decreases k,
{
    if k <= 0 {
        Seq::empty()
    } else {
        let prev = row_records(file, row, data, words, counts, k - 1);
        if counts[k - 1] > 0 {
            prev.push(MatchRecord { row, count: counts[k - 1], word: words[k - 1], data, file })
        } else {
            prev
        }
    }
}

/// The line as matched: lower-cased unless the search is case sensitive.
pub open spec fn normalized(line: Seq<char>, case_sensitive: bool) -> Seq<char> {
    if case_sensitive {
        line
    } else {
        lower_of(line)
    }
}

/// The line holds one of the exclusion terms.
pub open spec fn excluded(line: Seq<char>, exclude: Seq<Seq<char>>) -> bool {
    exists|k: int| 0 <= k < exclude.len() && contains_text(line, #[trigger] exclude[k])
}

/// Each word's number of matches on a line.
pub open spec fn counts_on(words: Seq<Seq<char>>, line: Seq<char>) -> Seq<nat> {
    Seq::new(words.len(), |k: int| match_count(words[k], line))
}

/// The records of one non-empty line (`line` as read from the file).
pub open spec fn line_records(file: Seq<char>, row: nat, line: Seq<char>, c: Config) -> Seq<
    MatchRecord,
> {
    let l = normalized(line, c.case_sensitive);
    if excluded(l, c.exclude_view()) {
        Seq::empty()
    } else {
        row_records(
            file,
            row,
            trim_of(l),
            c.words_view(),
            counts_on(c.words_view(), l),
            c.words_view().len() as int,
        )
    }
}

/// The records of the lines from row `i` on, `run` empty lines having just
/// been passed.
pub open spec fn scan_from(file: Seq<char>, lines: Seq<Seq<char>>, i: int, run: nat, c: Config) -> Seq<
    MatchRecord,
>
    decreases lines.len() - i,
{
    if i < 0 || i >= lines.len() {
        Seq::empty()
    } else if lines[i].len() == 0 {
        if run >= MAX_EMPTY_RUN {
            Seq::empty()
        } else {
            scan_from(file, lines, i + 1, run + 1, c)
        }
    } else {
        line_records(file, i as nat, lines[i], c) + scan_from(file, lines, i + 1, 0, c)
    }
}

/// The records of a whole file.
pub open spec fn scan_spec(file: Seq<char>, lines: Seq<Seq<char>>, c: Config) -> Seq<MatchRecord> {
    scan_from(file, lines, 0, 0, c)
}

/// The records of one line, given each word's count on the line (`counts`)
/// and the line's trimmed text (`data`): one per word with a positive
/// count, in the order of the words.
pub fn row_matches(
    file: &String,
    row: usize,
    data: &String,
    words: &Vec<String>,
    counts: &Vec<usize>,
) -> (r: Vec<Match>)
    requires
        counts@.len() == words@.len(),
    ensures
        records_of(r@) == row_records(
            file@,
            row as nat,
            data@,
            texts_of(words@),
            counts@.map_values(|n: usize| n as nat),
            words@.len() as int,
        ),
{
    let ghost cs = counts@.map_values(|n: usize| n as nat);
    let mut out: Vec<Match> = Vec::new();
    let mut k: usize = 0;
    while k < words.len()
        invariant
            k <= words@.len(),
            counts@.len() == words@.len(),
            cs == counts@.map_values(|n: usize| n as nat),
            records_of(out@) == row_records(file@, row as nat, data@, texts_of(words@), cs, k as int),
        decreases words@.len() - k,
    {
        if counts[k] > 0 {
            let m = Match {
                row,
                count: counts[k],
                word: words[k].clone(),
                data: data.clone(),
                file: file.clone(),
            };
            let ghost before = out@;
            out.push(m);
            assert(records_of(out@) =~= records_of(before).push(m@));
        }
        k += 1;
    }
    out
}

/// Whether `line` holds one of the `exclude` terms as a plain substring.
pub fn is_excluded(line: &String, exclude: &Vec<String>) -> (r: bool)
    ensures
        r == excluded(line@, texts_of(exclude@)),
{
    let ghost ex = texts_of(exclude@);
    let mut k: usize = 0;
    while k < exclude.len()
        invariant
            k <= exclude@.len(),
            ex == texts_of(exclude@),
            forall|j: int| 0 <= j < k ==> !contains_text(line@, #[trigger] ex[j]),
        decreases exclude@.len() - k,
    {
        if contains(line.as_str(), exclude[k].as_str()) {
            assert(contains_text(line@, ex[k as int]));
            return true;
        }
        k += 1;
    }
    false
}

/// The records of one non-empty line of `file` at `row`, the words being
/// compiled into `patterns`.
fn scan_line(
    file: &String,
    row: usize,
    line: &String,
    config: &Config,
    patterns: &Vec<WordPattern>,
) -> (r: Vec<Match>)
    requires
        patterns@.len() == config.words@.len(),
        forall|k: int| 0 <= k < patterns@.len() ==> #[trigger] patterns@[k]@ == config.words@[k]@,
    ensures
        records_of(r@) == line_records(file@, row as nat, line@, *config),
{
    let l = if config.case_sensitive {
        line.clone()
    } else {
        lowercase(line.as_str())
    };
    if is_excluded(&l, &config.exclude) {
        return Vec::new();
    }
    let mut counts: Vec<usize> = Vec::new();
    let mut k: usize = 0;
    while k < patterns.len()
        invariant
            k <= patterns@.len(),
            patterns@.len() == config.words@.len(),
            forall|j: int| 0 <= j < patterns@.len() ==> #[trigger] patterns@[j]@ == config.words@[j]@,
            counts@.len() == k,
            forall|j: int| 0 <= j < k ==> #[trigger] counts@[j] == match_count(config.words@[j]@, l@),
        decreases patterns@.len() - k,
    {
        let n = patterns[k].count_in(l.as_str());
        counts.push(n);
        k += 1;
    }
    let data = trim(l.as_str());
    let r = row_matches(file, row, &data, &config.words, &counts);
    assert(counts@.map_values(|n: usize| n as nat) =~= counts_on(config.words_view(), l@));
    r
}

/// One step of the scan, on the line at `row` with `run` empty lines just
/// passed: the line's records, the new count of empty lines, and whether the
/// scan ends here.
pub open spec fn step_spec(file: Seq<char>, row: nat, run: nat, line: Seq<char>, c: Config) -> (
    Seq<MatchRecord>,
    nat,
    bool,
) {
    if line.len() == 0 {
        if run >= MAX_EMPTY_RUN {
            (Seq::empty(), run, true)
        } else {
            (Seq::empty(), run + 1, false)
        }
    } else {
        (line_records(file, row, line, c), 0, false)
    }
}

/// The scan of a file from row `i` is the step on that line followed, unless
/// the step ends the scan, by the scan from the next row.
pub proof fn lemma_step_unfolds(file: Seq<char>, lines: Seq<Seq<char>>, i: int, run: nat, c: Config)
    requires
        0 <= i < lines.len(),
    ensures
        ({
            let (recs, next, stop) = step_spec(file, i as nat, run, lines[i], c);
            scan_from(file, lines, i, run, c) == recs + if stop {
                Seq::<MatchRecord>::empty()
            } else {
                scan_from(file, lines, i + 1, next, c)
            }
        }),
{
    let e = Seq::<MatchRecord>::empty();
    assert(e + e =~= e);
    assert(e + scan_from(file, lines, i + 1, run + 1, c) =~= scan_from(file, lines, i + 1, run + 1, c));
}

/// What one scanned line gives.
pub struct LineStep {
    /// The line's records.
    pub records: Vec<Match>,
    /// Empty lines passed just before the next line.
    pub run: usize,
    /// The scan ends at this line.
    pub stop: bool,
}

/// Scans the line `line` at `row` of `file`, `run` empty lines having just
/// been passed: an empty line ends the scan after five others, else only
/// counts; any other line gives its records and resets the count.
pub fn scan_step(
    file: &String,
    row: usize,
    run: usize,
    line: &String,
    config: &Config,
    patterns: &Vec<WordPattern>,
) -> (r: LineStep)
    requires
        run <= MAX_EMPTY_RUN,
        patterns@.len() == config.words@.len(),
        forall|k: int| 0 <= k < patterns@.len() ==> #[trigger] patterns@[k]@ == config.words@[k]@,
    ensures
        (records_of(r.records@), r.run as nat, r.stop) == step_spec(
            file@,
            row as nat,
            run as nat,
            line@,
            *config,
        ),
        r.run <= MAX_EMPTY_RUN,
{
    if line.as_str().is_empty() {
        let records: Vec<Match> = Vec::new();
        assert(records_of(records@) =~= Seq::<MatchRecord>::empty());
        if run >= MAX_EMPTY_RUN {
            LineStep { records, run, stop: true }
        } else {
            LineStep { records, run: run + 1, stop: false }
        }
    } else {
        LineStep { records: scan_line(file, row, line, config, patterns), run: 0, stop: false }
    }
}

/// The records of a file whose lines are `lines`, in order: each non-empty
/// line is normalized, skipped when it holds an exclusion term, else gives
/// one record per word found on it. More than five empty lines in a row end
/// the scan.
pub fn scan_lines(file: &String, lines: &Vec<String>, config: &Config, patterns: &Vec<WordPattern>) -> (r:
    Vec<Match>)
    requires
        patterns@.len() == config.words@.len(),
        forall|k: int| 0 <= k < patterns@.len() ==> #[trigger] patterns@[k]@ == config.words@[k]@,
    ensures
        records_of(r@) == scan_spec(file@, texts_of(lines@), *config),
{
    let ghost ls = texts_of(lines@);
    let mut out: Vec<Match> = Vec::new();
    let mut run: usize = 0;
    let mut i: usize = 0;
    while i < lines.len()
        invariant
            i <= lines@.len(),
            run <= MAX_EMPTY_RUN,
            ls == texts_of(lines@),
            patterns@.len() == config.words@.len(),
            forall|k: int| 0 <= k < patterns@.len() ==> #[trigger] patterns@[k]@ == config.words@[k]@,
            records_of(out@) + scan_from(file@, ls, i as int, run as nat, *config) == scan_spec(
                file@,
                ls,
                *config,
            ),
        decreases lines@.len() - i,
    {
        assert(ls[i as int] == lines@[i as int]@);
        let step = scan_step(file, i, run, &lines[i], config, patterns);
        proof {
            lemma_step_unfolds(file@, ls, i as int, run as nat, *config);
        }
        let ghost before = out@;
        let ghost recs = records_of(step.records@);
        let mut found = step.records;
        out.append(&mut found);
        assert(records_of(out@) =~= records_of(before) + recs);
        if step.stop {
            assert(records_of(out@) + Seq::<MatchRecord>::empty() =~= records_of(out@));
            return out;
        }
        let ghost rest = scan_from(file@, ls, i + 1, step.run as nat, *config);
        assert(records_of(out@) + rest =~= records_of(before) + (recs + rest));
        run = step.run;
        i += 1;
    }
    assert(records_of(out@) + Seq::<MatchRecord>::empty() =~= records_of(out@));
    out
}

/// A line that holds an exclusion term (once normalized) gives no record,
/// whatever words it holds.
pub proof fn lemma_excluded_line_gives_nothing(file: Seq<char>, row: nat, line: Seq<char>, c: Config)
    requires
        excluded(normalized(line, c.case_sensitive), c.exclude_view()),
    ensures
        line_records(file, row, line, c) == Seq::<MatchRecord>::empty(),
{
}

proof fn lemma_row_records_row(
    file: Seq<char>,
    row: nat,
    data: Seq<char>,
    words: Seq<Seq<char>>,
    counts: Seq<nat>,
    k: int,
)
    ensures
        forall|t: int|
            0 <= t < row_records(file, row, data, words, counts, k).len() ==> (#[trigger] row_records(
                file,
                row,
                data,
                words,
                counts,
                k,
            )[t]).row == row,
    decreases k,
{
    if k > 0 {
        lemma_row_records_row(file, row, data, words, counts, k - 1);
        let prev = row_records(file, row, data, words, counts, k - 1);
        let cur = row_records(file, row, data, words, counts, k);
        assert forall|t: int| 0 <= t < cur.len() implies (#[trigger] cur[t]).row == row by {
            if t < prev.len() {
                assert(cur[t] == prev[t]);
            }
        }
    }
}

proof fn lemma_line_records_row(file: Seq<char>, row: nat, line: Seq<char>, c: Config)
    ensures
        forall|t: int|
            0 <= t < line_records(file, row, line, c).len() ==> (#[trigger] line_records(
                file,
                row,
                line,
                c,
            )[t]).row == row,
{
    let l = normalized(line, c.case_sensitive);
    lemma_row_records_row(
        file,
        row,
        trim_of(l),
        c.words_view(),
        counts_on(c.words_view(), l),
        c.words_view().len() as int,
    );
}

proof fn lemma_scan_stops(file: Seq<char>, lines: Seq<Seq<char>>, c: Config, i: int, j: int, run: nat)
    requires
        0 <= i,
        i + 6 <= lines.len(),
        forall|t: int| i <= t < i + 6 ==> (#[trigger] lines[t]).len() == 0,
        0 <= j,
        j <= i || (j <= i + 5 && run >= j - i),
    ensures
        forall|t: int|
            0 <= t < scan_from(file, lines, j, run, c).len() ==> (#[trigger] scan_from(
                file,
                lines,
                j,
                run,
                c,
            )[t]).row < i + 6,
    decreases lines.len() - j,
{
    if j < lines.len() {
        if lines[j].len() == 0 {
            if run < MAX_EMPTY_RUN {
                lemma_scan_stops(file, lines, c, i, j + 1, run + 1);
                assert(scan_from(file, lines, j, run, c) == scan_from(file, lines, j + 1, run + 1, c));
            } else {
                assert(scan_from(file, lines, j, run, c) == Seq::<MatchRecord>::empty());
            }
        } else {
            assert(j < i) by {
                if j >= i {
                    assert(lines[j].len() == 0);
                }
            }
            lemma_scan_stops(file, lines, c, i, j + 1, 0);
            lemma_line_records_row(file, j as nat, lines[j], c);
            let a = line_records(file, j as nat, lines[j], c);
            let b = scan_from(file, lines, j + 1, 0, c);
            assert(scan_from(file, lines, j, run, c) == a + b);
            assert forall|t: int| 0 <= t < (a + b).len() implies (#[trigger] (a + b)[t]).row < i
                + 6 by {
                if t < a.len() {
                    assert((a + b)[t] == a[t]);
                    assert(a[t].row == j);
                } else {
                    assert((a + b)[t] == b[t - a.len()]);
                }
            }
        }
    }
}

/// Six empty lines in a row end the scan: no record comes from a line
/// after them.
pub proof fn lemma_empty_run_ends_scan(file: Seq<char>, lines: Seq<Seq<char>>, c: Config, i: int)
    requires
        0 <= i,
        i + 6 <= lines.len(),
        forall|t: int| i <= t < i + 6 ==> (#[trigger] lines[t]).len() == 0,
    ensures
        forall|t: int|
            0 <= t < scan_spec(file, lines, c).len() ==> (#[trigger] scan_spec(file, lines, c)[t]).row
                < i + 6,
{
    lemma_scan_stops(file, lines, c, i, 0, 0);
}

proof fn lemma_rows_after(file: Seq<char>, lines: Seq<Seq<char>>, c: Config, i: int, j: int, run: nat)
    requires
        0 <= i < lines.len(),
        excluded(normalized(lines[i], c.case_sensitive), c.exclude_view()),
        0 <= j,
    ensures
        forall|t: int|
            0 <= t < scan_from(file, lines, j, run, c).len() ==> (#[trigger] scan_from(
                file,
                lines,
                j,
                run,
                c,
            )[t]).row >= j && scan_from(file, lines, j, run, c)[t].row != i,
    decreases lines.len() - j,
{
    if j < lines.len() {
        if lines[j].len() == 0 {
            if run < MAX_EMPTY_RUN {
                lemma_rows_after(file, lines, c, i, j + 1, run + 1);
                assert(scan_from(file, lines, j, run, c) == scan_from(file, lines, j + 1, run + 1, c));
            } else {
                assert(scan_from(file, lines, j, run, c) == Seq::<MatchRecord>::empty());
            }
        } else {
            lemma_rows_after(file, lines, c, i, j + 1, 0);
            lemma_line_records_row(file, j as nat, lines[j], c);
            let a = line_records(file, j as nat, lines[j], c);
            let b = scan_from(file, lines, j + 1, 0, c);
            if j == i {
                lemma_excluded_line_gives_nothing(file, j as nat, lines[j], c);
            }
            assert(scan_from(file, lines, j, run, c) == a + b);
            assert forall|t: int| 0 <= t < (a + b).len() implies (#[trigger] (a + b)[t]).row >= j
                && (a + b)[t].row != i by {
                if t < a.len() {
                    assert((a + b)[t] == a[t]);
                    assert(a[t].row == j);
                } else {
                    assert((a + b)[t] == b[t - a.len()]);
                }
            }
        }
    }
}

/// A line that holds an exclusion term (once normalized) gives no record
/// of its file: no record of the whole scan has its row.
pub proof fn lemma_excluded_row_absent(file: Seq<char>, lines: Seq<Seq<char>>, c: Config, i: int)
    requires
        0 <= i < lines.len(),
        excluded(normalized(lines[i], c.case_sensitive), c.exclude_view()),
    ensures
        forall|t: int|
            0 <= t < scan_spec(file, lines, c).len() ==> (#[trigger] scan_spec(file, lines, c)[t]).row
                != i,
{
    lemma_rows_after(file, lines, c, i, 0, 0);
}

} // verus!
