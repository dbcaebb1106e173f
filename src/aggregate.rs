//! Folding match records into a per-file, per-word occurrence table.
use vstd::prelude::*;
use crate::config::Config;
use crate::matcher::{Match, MatchRecord, records_of};

verus! {

broadcast use vstd::seq_lib::group_to_multiset_ensures;

/// The sum of `f` over the records of `s`.
pub open spec fn sum_by(s: Seq<MatchRecord>, f: spec_fn(MatchRecord) -> int) -> int
    decreases s.len(),
{
    if s.len() == 0 {
        0
    } else {
        sum_by(s.drop_last(), f) + f(s.last())
    }
}

/// Occurrences of `word` in `file` over the records of `s`.
pub open spec fn cell(s: Seq<MatchRecord>, file: Seq<char>, word: Seq<char>) -> int {
    sum_by(
        s,
        |r: MatchRecord|
            if r.file == file && r.word == word {
                r.count as int
            } else {
                0
            },
    )
}

/// Number of records of `s` that come from `file`.
pub open spec fn record_count(s: Seq<MatchRecord>, file: Seq<char>) -> int {
    sum_by(
        s,
        |r: MatchRecord|
            if r.file == file {
                1
            } else {
                0
            },
    )
}

/// Occurrences of `word` over all the records of `s`.
pub open spec fn word_total(s: Seq<MatchRecord>, word: Seq<char>) -> int {
    sum_by(
        s,
        |r: MatchRecord|
            if r.word == word {
                r.count as int
            } else {
                0
            },
    )
}

/// Occurrences over all the records of `s`.
pub open spec fn total_count(s: Seq<MatchRecord>) -> int {
    sum_by(s, |r: MatchRecord| r.count as int)
}

/// One file's line of the occurrence table.
pub struct FileRow {
    pub file: Seq<char>,
    /// Occurrences of each configured word, in the order of the words.
    pub words: Seq<int>,
    /// Number of match records of the file.
    pub count: int,
}

/// The row that the records `s` give `file`.
pub open spec fn expected_row(s: Seq<MatchRecord>, words: Seq<Seq<char>>, file: Seq<char>) -> FileRow {
    FileRow {
        file,
        words: Seq::new(words.len(), |k: int| cell(s, file, words[k])),
        count: record_count(s, file),
    }
}

/// The occurrence table of `s`: an entry for each file that has a record.
pub open spec fn aggregate_view(s: Seq<MatchRecord>, words: Seq<Seq<char>>) -> Map<Seq<char>, FileRow> {
    Map::new(|f: Seq<char>| record_count(s, f) > 0, |f: Seq<char>| expected_row(s, words, f))
}

/// The counts of one file.
pub struct FileSet {
    pub file: String,
    /// Occurrences of each configured word, in the order of the words.
    pub words: Vec<usize>,
    /// Number of match records of the file.
    pub count: usize,
}

impl View for FileSet {
    type V = FileRow;

    open spec fn view(&self) -> FileRow {
        FileRow {
            file: self.file@,
            words: self.words@.map_values(|n: usize| n as int),
            count: self.count as int,
        }
    }
}

impl FileSet {
    /// A file with the given word counts and no record yet.
    pub fn from(file: String, words: Vec<usize>) -> (r: Self)
        ensures
            r.file == file,
            r.words == words,
            r.count == 0,
    {
        FileSet { file, words, count: 0 }
    }
}

/// The rows of `t`, viewed.
pub open spec fn rows_of(t: Seq<FileSet>) -> Seq<FileRow> {
    t.map_values(|f: FileSet| f@)
}

/// No file has two rows.
pub open spec fn distinct_files(rows: Seq<FileRow>) -> bool {
    forall|i: int, j: int| 0 <= i < j < rows.len() ==> rows[i].file != rows[j].file
}

/// `rows` lists the table `aggregate_view(s, words)`, each entry once, in
/// some order.
pub open spec fn is_table_of(rows: Seq<FileRow>, s: Seq<MatchRecord>, words: Seq<Seq<char>>) -> bool {
    &&& distinct_files(rows)
    &&& forall|f: Seq<char>|
        aggregate_view(s, words).contains_key(f) <==> exists|j: int|
            0 <= j < rows.len() && (#[trigger] rows[j]).file == f
    &&& forall|j: int| 0 <= j < rows.len() ==> #[trigger] rows[j] == expected_row(s, words, rows[j].file)
}

proof fn lemma_sum_push(s: Seq<MatchRecord>, x: MatchRecord, f: spec_fn(MatchRecord) -> int)
    ensures
        sum_by(s.push(x), f) == sum_by(s, f) + f(x),
{
    assert(s.push(x).drop_last() =~= s);
}

proof fn lemma_sum_take(s: Seq<MatchRecord>, i: int, f: spec_fn(MatchRecord) -> int)
    requires
        0 <= i < s.len(),
    ensures
        sum_by(s.take(i + 1), f) == sum_by(s.take(i), f) + f(s[i]),
{
    assert(s.take(i + 1) =~= s.take(i).push(s[i]));
    lemma_sum_push(s.take(i), s[i], f);
}

proof fn lemma_sum_le(s: Seq<MatchRecord>, f: spec_fn(MatchRecord) -> int, g: spec_fn(MatchRecord) -> int)
    requires
        forall|r: MatchRecord| 0 <= #[trigger] f(r) <= g(r),
    ensures
        0 <= sum_by(s, f) <= sum_by(s, g),
    decreases s.len(),
{
    if s.len() > 0 {
        lemma_sum_le(s.drop_last(), f, g);
    }
}

proof fn lemma_sum_prefix(s: Seq<MatchRecord>, i: int, f: spec_fn(MatchRecord) -> int)
    requires
        0 <= i <= s.len(),
        forall|r: MatchRecord| 0 <= #[trigger] f(r),
    ensures
        sum_by(s.take(i), f) <= sum_by(s, f),
    decreases s.len() - i,
{
    if i < s.len() {
        lemma_sum_take(s, i, f);
        lemma_sum_prefix(s, i + 1, f);
    } else {
        assert(s.take(i) =~= s);
    }
}

proof fn lemma_sum_remove(s: Seq<MatchRecord>, j: int, f: spec_fn(MatchRecord) -> int)
    requires
        0 <= j < s.len(),
    ensures
        sum_by(s, f) == sum_by(s.remove(j), f) + f(s[j]),
    decreases s.len(),
{
    if j == s.len() - 1 {
        assert(s.remove(j) =~= s.drop_last());
    } else {
        lemma_sum_remove(s.drop_last(), j, f);
        assert(s.remove(j).drop_last() =~= s.drop_last().remove(j));
    }
}

/// A sum over records does not depend on their order.
pub proof fn lemma_sum_permutation(a: Seq<MatchRecord>, b: Seq<MatchRecord>, f: spec_fn(MatchRecord) -> int)
    requires
        a.to_multiset() == b.to_multiset(),
    ensures
        sum_by(a, f) == sum_by(b, f),
    decreases a.len(),
{
    if a.len() == 0 {
        assert(a.to_multiset().len() == a.len());
        assert(b.to_multiset().len() == b.len());
    } else {
        let x = a.last();
        let a0 = a.drop_last();
        assert(a =~= a0.push(x));
        assert(a.to_multiset().count(x) > 0);
        assert(b.contains(x));
        let j = choose|j: int| 0 <= j < b.len() && b[j] == x;
        assert(b.remove(j).to_multiset() == a0.to_multiset());
        lemma_sum_permutation(a0, b.remove(j), f);
        lemma_sum_remove(b, j, f);
    }
}

/// Aggregating an empty list of records gives an empty table.
pub proof fn lemma_aggregate_empty(words: Seq<Seq<char>>)
    ensures
        aggregate_view(Seq::empty(), words) == Map::<Seq<char>, FileRow>::empty(),
{
    assert(aggregate_view(Seq::empty(), words) =~= Map::<Seq<char>, FileRow>::empty());
}

/// Aggregation does not depend on the order of the records: two lists that
/// are permutations of each other give the same table.
pub proof fn lemma_aggregate_permutation(a: Seq<MatchRecord>, b: Seq<MatchRecord>, words: Seq<Seq<char>>)
    requires
        a.to_multiset() == b.to_multiset(),
    ensures
        aggregate_view(a, words) == aggregate_view(b, words),
{
    assert forall|f: Seq<char>|
        record_count(a, f) == record_count(b, f) && expected_row(a, words, f) == expected_row(
            b,
            words,
            f,
        ) by {
        lemma_sum_permutation(
            a,
            b,
            |r: MatchRecord|
                if r.file == f {
                    1
                } else {
                    0
                },
        );
        assert forall|k: int| 0 <= k < words.len() implies cell(a, f, words[k]) == cell(
            b,
            f,
            words[k],
        ) by {
            let w = words[k];
            lemma_sum_permutation(
                a,
                b,
                |r: MatchRecord|
                    if r.file == f && r.word == w {
                        r.count as int
                    } else {
                        0
                    },
            );
        }
        assert(expected_row(a, words, f).words =~= expected_row(b, words, f).words);
    }
    assert(aggregate_view(a, words) =~= aggregate_view(b, words));
}

proof fn lemma_record_count_le(s: Seq<MatchRecord>, f: Seq<char>)
    ensures
        0 <= record_count(s, f) <= s.len(),
    decreases s.len(),
{
    if s.len() > 0 {
        lemma_record_count_le(s.drop_last(), f);
    }
}

/// How one more record changes the counts of every file and word.
proof fn lemma_step(s: Seq<MatchRecord>, i: int)
    requires
        0 <= i < s.len(),
    ensures
        forall|f: Seq<char>, w: Seq<char>|
            #[trigger] cell(s.take(i + 1), f, w) == cell(s.take(i), f, w) + (if s[i].file == f
                && s[i].word == w {
                s[i].count as int
            } else {
                0
            }),
        forall|f: Seq<char>|
            #[trigger] record_count(s.take(i + 1), f) == record_count(s.take(i), f) + (if s[i].file
                == f {
                1int
            } else {
                0
            }),
        forall|f: Seq<char>, w: Seq<char>| 0 <= #[trigger] cell(s.take(i + 1), f, w) <= total_count(s),
        forall|f: Seq<char>| #[trigger] record_count(s.take(i + 1), f) <= i + 1,
{
    let tot = |r: MatchRecord| r.count as int;
    lemma_sum_prefix(s, i + 1, tot);
    assert forall|f: Seq<char>, w: Seq<char>|
        #[trigger] cell(s.take(i + 1), f, w) == cell(s.take(i), f, w) + (if s[i].file == f
            && s[i].word == w {
            s[i].count as int
        } else {
            0
        }) && 0 <= cell(s.take(i + 1), f, w) <= total_count(s) by {
        let g = |r: MatchRecord|
            if r.file == f && r.word == w {
                r.count as int
            } else {
                0
            };
        lemma_sum_take(s, i, g);
        lemma_sum_le(s.take(i + 1), g, tot);
    }
    assert forall|f: Seq<char>|
        #[trigger] record_count(s.take(i + 1), f) == record_count(s.take(i), f) + (if s[i].file
            == f {
            1int
        } else {
            0
        }) && record_count(s.take(i + 1), f) <= i + 1 by {
        let g = |r: MatchRecord|
            if r.file == f {
                1int
            } else {
                0
            };
        lemma_sum_take(s, i, g);
        lemma_record_count_le(s.take(i + 1), f);
    }
}

/// Index of the row of `file` in `table`, if it has one.
fn find_file(table: &Vec<FileSet>, file: &String) -> (r: Option<usize>)
    ensures
        r matches Some(j) ==> j < table@.len() && table@[j as int].file@ == file@,
        r is None ==> forall|j: int| 0 <= j < table@.len() ==> table@[j].file@ != file@,
{
    let mut j: usize = 0;
    while j < table.len()
        invariant
            j <= table@.len(),
            forall|t: int| 0 <= t < j ==> table@[t].file@ != file@,
        decreases table@.len() - j,
    {
        if table[j].file == *file {
            return Some(j);
        }
        j += 1;
    }
    None
}

/// Folds the match records into the occurrence table: one row per file that
/// has a record, holding for each configured word (zero included) the sum
/// of the counts of that file's records of the word, and the number of the
/// file's records.
pub fn parse_results(results: &Vec<Match>, config: &Config) -> (r: Vec<FileSet>)
    requires
        total_count(records_of(results@)) <= usize::MAX,
    ensures
        is_table_of(rows_of(r@), records_of(results@), config.words_view()),
{
    let ghost s = records_of(results@);
    let ghost wv = config.words_view();
    let n = config.words.len();
    let mut table: Vec<FileSet> = Vec::new();
    let mut i: usize = 0;
    assert(aggregate_view(s.take(0), wv) =~= Map::<Seq<char>, FileRow>::empty());
    while i < results.len()
        invariant
            i <= results@.len(),
            s == records_of(results@),
            wv == config.words_view(),
            n == wv.len(),
            total_count(s) <= usize::MAX,
            is_table_of(rows_of(table@), s.take(i as int), wv),
        decreases results@.len() - i,
    {
        let x = &results[i];
        proof {
            lemma_step(s, i as int);
        }
        let ghost si = s.take(i as int);
        let ghost sn = s.take(i + 1);
        let ghost rows = rows_of(table@);
        let found = find_file(&table, &x.file);
        proof {
            assert(x@ == s[i as int]);
            assert(forall|j: int| 0 <= j < rows.len() ==> #[trigger] rows[j] == table@[j]@);
            lemma_record_count_le(si, x.file@);
            if let Some(j) = found {
                assert(rows[j as int].file == x.file@);
                assert(table@[j as int]@.words.len() == n);
            } else {
                if record_count(si, x.file@) > 0 {
                    assert(aggregate_view(si, wv).contains_key(x.file@));
                    let j = choose|j: int| 0 <= j < rows.len() && (#[trigger] rows[j]).file == x.file@;
                    assert(false);
                }
            }
        }
        let mut new_words: Vec<usize> = Vec::new();
        let mut k: usize = 0;
        while k < n
            invariant
                k <= n,
                n == wv.len(),
                wv == config.words_view(),
                found matches Some(j) ==> j < table@.len() && table@[j as int].file@ == x.file@
                    && table@[j as int]@ == expected_row(si, wv, x.file@)
                    && table@[j as int].words@.len() == n,
                found is None ==> record_count(si, x.file@) == 0,
                x@ == s[i as int],
                new_words@.len() == k,
                forall|t: int|
                    0 <= t < k ==> #[trigger] new_words@[t] == cell(sn, x.file@, wv[t]),
                forall|f: Seq<char>, w: Seq<char>|
                    #[trigger] cell(sn, f, w) == cell(si, f, w) + (if x.file@ == f && x.word@ == w {
                        x.count as int
                    } else {
                        0
                    }),
                forall|f: Seq<char>, w: Seq<char>| 0 <= #[trigger] cell(sn, f, w) <= total_count(s),
                total_count(s) <= usize::MAX,
            decreases n - k,
        {
            let base: usize = match found {
                Some(j) => {
                    assert(table@[j as int]@.words[k as int] == cell(si, x.file@, wv[k as int]));
                    table[j].words[k]
                },
                None => 0,
            };
            proof {
                if found is None {
                    lemma_sum_le(
                        si,
                        |r: MatchRecord|
                            if r.file == x.file@ && r.word == wv[k as int] {
                                r.count as int
                            } else {
                                0
                            },
                        |r: MatchRecord|
                            if r.file == x.file@ {
                                r.count as int
                            } else {
                                0
                            },
                    );
                    lemma_cell_zero(si, x.file@, wv[k as int]);
                }
                assert(cell(sn, x.file@, wv[k as int]) <= usize::MAX);
            }
            if config.words[k] == x.word {
                assert(wv[k as int] == x.word@);
                new_words.push(base + x.count);
            } else {
                new_words.push(base);
            }
            k += 1;
        }
        let ghost new_row = expected_row(sn, wv, x.file@);
        match found {
            Some(j) => {
                let c = table[j].count;
                table.set(j, FileSet { file: x.file.clone(), words: new_words, count: c + 1 });
            },
            None => {
                let mut fs = FileSet::from(x.file.clone(), new_words);
                fs.count = 1;
                table.push(fs);
            },
        }
        proof {
            let nrows = rows_of(table@);
            assert forall|j: int| 0 <= j < nrows.len() implies #[trigger] nrows[j] == expected_row(
                sn,
                wv,
                nrows[j].file,
            ) by {
                if j < rows.len() && (found is None || j != found->0) {
                    assert(nrows[j] == rows[j]);
                    assert(rows[j].file != x.file@);
                    assert(expected_row(sn, wv, rows[j].file).words =~= expected_row(
                        si,
                        wv,
                        rows[j].file,
                    ).words);
                } else {
                    assert(nrows[j].file == x.file@);
                    assert(nrows[j].words =~= new_row.words);
                }
            }
            assert forall|f: Seq<char>|
                aggregate_view(sn, wv).contains_key(f) <==> exists|j: int|
                    0 <= j < nrows.len() && (#[trigger] nrows[j]).file == f by {
                if aggregate_view(sn, wv).contains_key(f) {
                    if f == x.file@ {
                        match found {
                            Some(j) => assert(nrows[j as int].file == f),
                            None => assert(nrows[nrows.len() - 1].file == f),
                        }
                    } else {
                        assert(aggregate_view(si, wv).contains_key(f));
                        let j = choose|j: int| 0 <= j < rows.len() && (#[trigger] rows[j]).file == f;
                        assert(nrows[j].file == f);
                    }
                }
                if exists|j: int| 0 <= j < nrows.len() && (#[trigger] nrows[j]).file == f {
                    let j = choose|j: int| 0 <= j < nrows.len() && (#[trigger] nrows[j]).file == f;
                    if f != x.file@ {
                        assert(nrows[j] == rows[j]);
                        assert(aggregate_view(si, wv).contains_key(f));
                    }
                }
            }
            assert forall|a: int, b: int| 0 <= a < b < nrows.len() implies nrows[a].file
                != nrows[b].file by {
                if b < rows.len() {
                    assert(nrows[a].file == rows[a].file || found == Some(a as usize));
                    assert(nrows[b].file == rows[b].file || found == Some(b as usize));
                    assert(rows[a].file != rows[b].file);
                } else {
                    assert(nrows[a] == rows[a]);
                }
            }
        }
        i += 1;
    }
    assert(s.take(results@.len() as int) =~= s);
    table
}

proof fn lemma_cell_zero(s: Seq<MatchRecord>, f: Seq<char>, w: Seq<char>)
    requires
        record_count(s, f) == 0,
    ensures
        cell(s, f, w) == 0,
    decreases s.len(),
{
    if s.len() > 0 {
        lemma_record_count_le(s.drop_last(), f);
        lemma_cell_zero(s.drop_last(), f, w);
    }
}

/// The sum of column `k` over the rows.
pub open spec fn column_sum(rows: Seq<FileRow>, k: int) -> int
    decreases rows.len(),
{
    if rows.len() == 0 {
        0
    } else {
        column_sum(rows.drop_last(), k) + rows.last().words[k]
    }
}

/// The sum over the files `fs` of their cells for `w`.
spec fn cells_sum(s: Seq<MatchRecord>, fs: Seq<Seq<char>>, w: Seq<char>) -> int
    decreases fs.len(),
{
    if fs.len() == 0 {
        0
    } else {
        cells_sum(s, fs.drop_last(), w) + cell(s, fs.last(), w)
    }
}

/// How many times `f` is listed in `fs`.
spec fn hits(fs: Seq<Seq<char>>, f: Seq<char>) -> int
    decreases fs.len(),
{
    if fs.len() == 0 {
        0
    } else {
        hits(fs.drop_last(), f) + if fs.last() == f {
            1int
        } else {
            0
        }
    }
}

proof fn lemma_hits_once(fs: Seq<Seq<char>>, f: Seq<char>)
    requires
        forall|a: int, b: int| 0 <= a < b < fs.len() ==> fs[a] != fs[b],
    ensures
        fs.contains(f) ==> hits(fs, f) == 1,
        !fs.contains(f) ==> hits(fs, f) == 0,
    decreases fs.len(),
{
    if fs.len() > 0 {
        let rest = fs.drop_last();
        lemma_hits_once(rest, f);
        if fs.last() == f {
            assert(!rest.contains(f));
        } else if fs.contains(f) {
            let j = choose|j: int| 0 <= j < fs.len() && fs[j] == f;
            assert(rest[j] == f);
        } else {
            assert(!rest.contains(f));
        }
    }
}

proof fn lemma_cells_sum_push(s: Seq<MatchRecord>, x: MatchRecord, fs: Seq<Seq<char>>, w: Seq<char>)
    ensures
        cells_sum(s.push(x), fs, w) == cells_sum(s, fs, w) + (if x.word == w {
            x.count * hits(fs, x.file)
        } else {
            0
        }),
    decreases fs.len(),
{
    if fs.len() > 0 {
        lemma_cells_sum_push(s, x, fs.drop_last(), w);
        let f = fs.last();
        lemma_sum_push(
            s,
            x,
            |r: MatchRecord|
                if r.file == f && r.word == w {
                    r.count as int
                } else {
                    0
                },
        );
        let h = hits(fs, x.file);
        let h0 = hits(fs.drop_last(), x.file);
        let d: int = if fs.last() == x.file {
            1
        } else {
            0
        };
        let c = x.count as int;
        assert(h == h0 + d);
        assert(c * h == c * h0 + c * d) by (nonlinear_arith)
            requires
                h == h0 + d,
        ;
    }
}

proof fn lemma_cells_sum_records(s: Seq<MatchRecord>, fs: Seq<Seq<char>>, w: Seq<char>)
    requires
        forall|a: int, b: int| 0 <= a < b < fs.len() ==> fs[a] != fs[b],
        forall|f: Seq<char>| record_count(s, f) > 0 ==> fs.contains(f),
    ensures
        cells_sum(s, fs, w) == word_total(s, w),
    decreases s.len(),
{
    if s.len() == 0 {
        lemma_cells_sum_empty(s, fs, w);
    } else {
        let s0 = s.drop_last();
        let x = s.last();
        assert(s =~= s0.push(x));
        assert forall|f: Seq<char>| record_count(s0, f) > 0 implies fs.contains(f) by {
            lemma_sum_push(
                s0,
                x,
                |r: MatchRecord|
                    if r.file == f {
                        1int
                    } else {
                        0
                    },
            );
        }
        lemma_cells_sum_records(s0, fs, w);
        lemma_cells_sum_push(s0, x, fs, w);
        lemma_record_count_le(s0, x.file);
        lemma_sum_push(
            s0,
            x,
            |r: MatchRecord|
                if r.file == x.file {
                    1int
                } else {
                    0
                },
        );
        lemma_hits_once(fs, x.file);
        lemma_sum_push(
            s0,
            x,
            |r: MatchRecord|
                if r.word == w {
                    r.count as int
                } else {
                    0
                },
        );
    }
}

proof fn lemma_cells_sum_empty(s: Seq<MatchRecord>, fs: Seq<Seq<char>>, w: Seq<char>)
    requires
        s.len() == 0,
    ensures
        cells_sum(s, fs, w) == 0,
    decreases fs.len(),
{
    if fs.len() > 0 {
        lemma_cells_sum_empty(s, fs.drop_last(), w);
    }
}

proof fn lemma_column_cells(rows: Seq<FileRow>, s: Seq<MatchRecord>, words: Seq<Seq<char>>, k: int)
    requires
        0 <= k < words.len(),
        forall|j: int| 0 <= j < rows.len() ==> #[trigger] rows[j] == expected_row(s, words, rows[j].file),
    ensures
        column_sum(rows, k) == cells_sum(s, rows.map_values(|r: FileRow| r.file), words[k]),
    decreases rows.len(),
{
    let fs = rows.map_values(|r: FileRow| r.file);
    if rows.len() > 0 {
        let r0 = rows.drop_last();
        assert(forall|j: int| 0 <= j < r0.len() ==> #[trigger] r0[j] == rows[j]);
        lemma_column_cells(r0, s, words, k);
        assert(r0.map_values(|r: FileRow| r.file) =~= fs.drop_last());
        assert(rows.last() == expected_row(s, words, rows.last().file));
    }
}

/// The sum of a word's column over the table equals the sum of the counts
/// of all the records of that word.
pub proof fn lemma_column_sum_is_word_total(
    rows: Seq<FileRow>,
    s: Seq<MatchRecord>,
    words: Seq<Seq<char>>,
    k: int,
)
    requires
        is_table_of(rows, s, words),
        0 <= k < words.len(),
    ensures
        column_sum(rows, k) == word_total(s, words[k]),
{
    let fs = rows.map_values(|r: FileRow| r.file);
    lemma_column_cells(rows, s, words, k);
    assert forall|f: Seq<char>| record_count(s, f) > 0 implies fs.contains(f) by {
        assert(aggregate_view(s, words).contains_key(f));
        let j = choose|j: int| 0 <= j < rows.len() && (#[trigger] rows[j]).file == f;
        assert(fs[j] == f);
    }
    assert forall|a: int, b: int| 0 <= a < b < fs.len() implies fs[a] != fs[b] by {
        assert(rows[a].file != rows[b].file);
    }
    lemma_cells_sum_records(s, fs, words[k]);
}

/// No word's total exceeds the total of all counts.
pub proof fn lemma_word_total_le(s: Seq<MatchRecord>, w: Seq<char>)
    ensures
        0 <= word_total(s, w) <= total_count(s),
{
    lemma_sum_le(
        s,
        |r: MatchRecord|
            if r.word == w {
                r.count as int
            } else {
                0
            },
        |r: MatchRecord| r.count as int,
    );
}

/// The total of a prefix of the records does not exceed the whole total.
pub proof fn lemma_total_prefix(s: Seq<MatchRecord>, i: int)
    requires
        0 <= i <= s.len(),
    ensures
        total_count(s.take(i)) <= total_count(s),
{
    lemma_sum_prefix(s, i, |r: MatchRecord| r.count as int);
}

/// Some record of `s` comes from `f`.
pub open spec fn has_record_of(s: Seq<MatchRecord>, f: Seq<char>) -> bool {
    exists|t: int| 0 <= t < s.len() && (#[trigger] s[t]).file == f
}

/// A table of no records has no row.
pub proof fn lemma_table_of_nothing(rows: Seq<FileRow>, words: Seq<Seq<char>>)
    requires
        is_table_of(rows, Seq::empty(), words),
    ensures
        rows.len() == 0,
{
    lemma_aggregate_empty(words);
    if rows.len() > 0 {
        assert(aggregate_view(Seq::empty(), words).contains_key(rows[0].file));
    }
}

/// Every file with a record has a row, and in a file's row a word that
/// none of the file's records has counts zero.
pub proof fn lemma_table_rows(rows: Seq<FileRow>, s: Seq<MatchRecord>, words: Seq<Seq<char>>)
    requires
        is_table_of(rows, s, words),
    ensures
        forall|f: Seq<char>|
            (exists|j: int| 0 <= j < rows.len() && (#[trigger] rows[j]).file == f) <==> #[trigger] has_record_of(s, f),
        forall|j: int, k: int|
            0 <= j < rows.len() && 0 <= k < words.len() && (forall|t: int|
                0 <= t < s.len() ==> !((#[trigger] s[t]).file == rows[j].file && s[t].word
                    == words[k])) ==> (#[trigger] rows[j].words[k]) == 0,
{
    assert forall|f: Seq<char>|
        (exists|j: int| 0 <= j < rows.len() && (#[trigger] rows[j]).file == f) <==> #[trigger] has_record_of(s, f) by {
        lemma_record_count_positive(s, f);
        assert(aggregate_view(s, words).contains_key(f) == (record_count(s, f) > 0));
    }
    assert forall|j: int, k: int|
        0 <= j < rows.len() && 0 <= k < words.len() && (forall|t: int|
            0 <= t < s.len() ==> !((#[trigger] s[t]).file == rows[j].file && s[t].word
                == words[k])) implies (#[trigger] rows[j].words[k]) == 0 by {
        lemma_cell_absent(s, rows[j].file, words[k]);
    }
}

proof fn lemma_record_count_positive(s: Seq<MatchRecord>, f: Seq<char>)
    ensures
        record_count(s, f) > 0 <==> exists|t: int| 0 <= t < s.len() && (#[trigger] s[t]).file == f,
    decreases s.len(),
{
    if s.len() > 0 {
        let s0 = s.drop_last();
        lemma_record_count_positive(s0, f);
        lemma_record_count_le(s0, f);
        if exists|t: int| 0 <= t < s0.len() && (#[trigger] s0[t]).file == f {
            let t = choose|t: int| 0 <= t < s0.len() && (#[trigger] s0[t]).file == f;
            assert(s[t] == s0[t]);
        }
        if exists|t: int| 0 <= t < s.len() && (#[trigger] s[t]).file == f {
            let t = choose|t: int| 0 <= t < s.len() && (#[trigger] s[t]).file == f;
            if t < s0.len() {
                assert(s0[t] == s[t]);
            }
        }
    }
}

proof fn lemma_cell_absent(s: Seq<MatchRecord>, f: Seq<char>, w: Seq<char>)
    requires
        forall|t: int| 0 <= t < s.len() ==> !((#[trigger] s[t]).file == f && s[t].word == w),
    ensures
        cell(s, f, w) == 0,
    decreases s.len(),
{
    if s.len() > 0 {
        let s0 = s.drop_last();
        assert forall|t: int| 0 <= t < s0.len() implies !((#[trigger] s0[t]).file == f && s0[t].word
            == w) by {
            assert(s0[t] == s[t]);
        }
        lemma_cell_absent(s0, f, w);
        assert(s[s.len() - 1] == s.last());
    }
}

/// Two tables of record lists that are permutations of each other hold the
/// same rows: each is a table of the other list, and they have as many
/// rows.
pub proof fn lemma_tables_of_permutations(
    rows_a: Seq<FileRow>,
    rows_b: Seq<FileRow>,
    a: Seq<MatchRecord>,
    b: Seq<MatchRecord>,
    words: Seq<Seq<char>>,
)
    requires
        a.to_multiset() == b.to_multiset(),
        is_table_of(rows_a, a, words),
        is_table_of(rows_b, b, words),
    ensures
        is_table_of(rows_a, b, words),
        is_table_of(rows_b, a, words),
        rows_a.len() == rows_b.len(),
{
    lemma_aggregate_permutation(a, b, words);
    let m = aggregate_view(a, words);
    assert forall|f: Seq<char>| m.contains_key(f) implies expected_row(a, words, f) == expected_row(
        b,
        words,
        f,
    ) by {
        assert(m[f] == expected_row(a, words, f));
        assert(aggregate_view(b, words)[f] == expected_row(b, words, f));
    }
    assert forall|j: int| 0 <= j < rows_a.len() implies #[trigger] rows_a[j] == expected_row(
        b,
        words,
        rows_a[j].file,
    ) by {
        assert(m.contains_key(rows_a[j].file));
    }
    assert forall|j: int| 0 <= j < rows_b.len() implies #[trigger] rows_b[j] == expected_row(
        a,
        words,
        rows_b[j].file,
    ) by {
        assert(m.contains_key(rows_b[j].file));
    }
    // Both lists are without repeats and hold the same files.
    let fa = rows_a.map_values(|r: FileRow| r.file);
    let fb = rows_b.map_values(|r: FileRow| r.file);
    assert(fa.no_duplicates());
    assert(fb.no_duplicates());
    assert(fa.to_set() =~= fb.to_set()) by {
        assert forall|f: Seq<char>| fa.to_set().contains(f) implies fb.to_set().contains(f) by {
            let j = choose|j: int| 0 <= j < fa.len() && fa[j] == f;
            assert(rows_a[j].file == f);
            assert(m.contains_key(f));
            let k = choose|k: int| 0 <= k < rows_b.len() && (#[trigger] rows_b[k]).file == f;
            assert(fb[k] == f);
        }
        assert forall|f: Seq<char>| fb.to_set().contains(f) implies fa.to_set().contains(f) by {
            let k = choose|k: int| 0 <= k < fb.len() && fb[k] == f;
            assert(rows_b[k].file == f);
            assert(m.contains_key(f));
            let j = choose|j: int| 0 <= j < rows_a.len() && (#[trigger] rows_a[j]).file == f;
            assert(fa[j] == f);
        }
    }
    fa.unique_seq_to_set();
    fb.unique_seq_to_set();
}

} // verus!
