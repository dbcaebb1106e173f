//! The orders of the report: words by total, files by name.
use vstd::prelude::*;

verus! {

/// `a` comes strictly before `b` in the lexicographic order of characters
/// (the order of `str`'s comparison).
pub open spec fn lex_lt(a: Seq<char>, b: Seq<char>) -> bool
    decreases a.len(),
{
    if a.len() == 0 {
        b.len() > 0
    } else if b.len() == 0 {
        false
    } else if a[0] != b[0] {
        a[0] < b[0]
    } else {
        lex_lt(a.drop_first(), b.drop_first())
    }
}

proof fn lemma_lex_total(a: Seq<char>, b: Seq<char>)
    ensures
        !lex_lt(a, a),
        lex_lt(a, b) ==> !lex_lt(b, a),
        lex_lt(a, b) || a == b || lex_lt(b, a),
    decreases a.len(),
{
    if a.len() > 0 {
        lemma_lex_total(a.drop_first(), a.drop_first());
    }
    if a.len() > 0 && b.len() > 0 {
        lemma_lex_total(a.drop_first(), b.drop_first());
        if a[0] != b[0] {
            assert(a[0] < b[0] || b[0] < a[0]);
        }
        if a[0] == b[0] && a.drop_first() == b.drop_first() {
            assert forall|i: int| 0 <= i < a.len() implies a[i] == b[i] by {
                if i > 0 {
                    assert(a[i] == a.drop_first()[i - 1]);
                    assert(b[i] == b.drop_first()[i - 1]);
                }
            }
            assert(a =~= b);
        }
    }
    if a.len() == 0 && b.len() == 0 {
        assert(a =~= b);
    }
}

proof fn lemma_lex_trans(a: Seq<char>, b: Seq<char>, c: Seq<char>)
    requires
        lex_lt(a, b),
        lex_lt(b, c),
    ensures
        lex_lt(a, c),
    decreases a.len(),
{
    if a.len() > 0 && b.len() > 0 && c.len() > 0 && a[0] == b[0] && b[0] == c[0] {
        lemma_lex_trans(a.drop_first(), b.drop_first(), c.drop_first());
    }
}

/// `lex_lt` is a strict total order.
pub proof fn lemma_lex_order(a: Seq<char>, b: Seq<char>, c: Seq<char>)
    ensures
        !lex_lt(a, a),
        lex_lt(a, b) ==> !lex_lt(b, a),
        lex_lt(a, b) || a == b || lex_lt(b, a),
        lex_lt(a, b) && lex_lt(b, c) ==> lex_lt(a, c),
{
    lemma_lex_total(a, b);
    if lex_lt(a, b) && lex_lt(b, c) {
        lemma_lex_trans(a, b, c);
    }
}

/// Whether `a` comes strictly before `b` lexicographically.
pub fn less_than(a: &str, b: &str) -> (r: bool)
    ensures
        r == lex_lt(a@, b@),
{
    let n = a.unicode_len();
    let m = b.unicode_len();
    let mut i: usize = 0;
    assert(a@.skip(0) =~= a@);
    assert(b@.skip(0) =~= b@);
    while i < n && i < m
        invariant
            n == a@.len(),
            m == b@.len(),
            i <= n,
            i <= m,
            lex_lt(a@, b@) == lex_lt(a@.skip(i as int), b@.skip(i as int)),
        decreases n - i,
    {
        let x = a.get_char(i);
        let y = b.get_char(i);
        if x != y {
            return x < y;
        }
        assert(a@.skip(i as int).drop_first() =~= a@.skip(i + 1));
        assert(b@.skip(i as int).drop_first() =~= b@.skip(i + 1));
        i += 1;
    }
    i < m
}

/// Word `a` comes before word `b`: a greater total, or an equal total and
/// an earlier place in the configuration.
pub open spec fn word_before(totals: Seq<int>, a: int, b: int) -> bool {
    totals[a] > totals[b] || (totals[a] == totals[b] && a < b)
}

/// `o` lists the indexes `0..totals.len()` by `word_before`.
pub open spec fn is_word_order(totals: Seq<int>, o: Seq<usize>) -> bool {
    &&& o.len() == totals.len()
    &&& forall|p: int| 0 <= p < o.len() ==> #[trigger] o[p] < totals.len()
    &&& forall|p: int, q: int| 0 <= p < q < o.len() ==> word_before(totals, #[trigger] o[p] as int, #[trigger] o[q] as int)
}

/// File `a` comes before file `b`: a greater name, or an equal name and an
/// earlier place in the table.
pub open spec fn file_before(names: Seq<Seq<char>>, a: int, b: int) -> bool {
    lex_lt(names[b], names[a]) || (names[a] == names[b] && a < b)
}

/// `o` lists the indexes `0..names.len()` by `file_before`.
pub open spec fn is_file_order(names: Seq<Seq<char>>, o: Seq<usize>) -> bool {
    &&& o.len() == names.len()
    &&& forall|p: int| 0 <= p < o.len() ==> #[trigger] o[p] < names.len()
    &&& forall|p: int, q: int| 0 <= p < q < o.len() ==> file_before(names, #[trigger] o[p] as int, #[trigger] o[q] as int)
}

/// The word indexes by descending total; equal totals keep their
/// configured order.
pub fn word_order(totals: &Vec<usize>) -> (r: Vec<usize>)
    ensures
        is_word_order(totals@.map_values(|t: usize| t as int), r@),
{
    let ghost ts = totals@.map_values(|t: usize| t as int);
    let mut out: Vec<usize> = Vec::new();
    let mut i: usize = 0;
    while i < totals.len()
        invariant
            i <= totals@.len(),
            ts == totals@.map_values(|t: usize| t as int),
            out@.len() == i,
            forall|p: int| 0 <= p < out@.len() ==> #[trigger] out@[p] < i,
            forall|p: int, q: int| 0 <= p < q < out@.len() ==> word_before(ts, #[trigger] out@[p] as int, #[trigger] out@[q] as int),
        decreases totals@.len() - i,
    {
        let mut p: usize = 0;
        while p < out.len() && totals[out[p]] >= totals[i]
            invariant
                p <= out@.len(),
                i < totals@.len(),
                forall|q: int| 0 <= q < out@.len() ==> #[trigger] out@[q] < i,
                forall|q: int| 0 <= q < p ==> totals@[#[trigger] out@[q] as int] >= totals@[i as int],
            decreases out@.len() - p,
        {
            p += 1;
        }
        let ghost before = out@;
        out.insert(p, i);
        proof {
            assert forall|a: int, b: int| 0 <= a < b < out@.len() implies word_before(
                ts,
                #[trigger] out@[a] as int,
                #[trigger] out@[b] as int,
            ) by {
                if b < p {
                    assert(word_before(ts, before[a] as int, before[b] as int));
                } else if b == p {
                    assert(out@[a] == before[a]);
                } else if a < p {
                    assert(word_before(ts, before[a] as int, before[b - 1] as int));
                } else if a == p {
                    assert(out@[b] == before[b - 1]);
                    assert(totals@[before[p as int] as int] < totals@[i as int]);
                    if b - 1 > p {
                        assert(word_before(ts, before[p as int] as int, before[b - 1] as int));
                    }
                } else {
                    assert(word_before(ts, before[a - 1] as int, before[b - 1] as int));
                }
            }
        }
        i += 1;
    }
    out
}

/// The file indexes by descending name; equal names keep their table
/// order.
pub fn file_order(names: &Vec<String>) -> (r: Vec<usize>)
    ensures
        is_file_order(names@.map_values(|s: String| s@), r@),
{
    let ghost ns = names@.map_values(|s: String| s@);
    let mut out: Vec<usize> = Vec::new();
    let mut i: usize = 0;
    while i < names.len()
        invariant
            i <= names@.len(),
            ns == names@.map_values(|s: String| s@),
            out@.len() == i,
            forall|p: int| 0 <= p < out@.len() ==> #[trigger] out@[p] < i,
            forall|p: int, q: int| 0 <= p < q < out@.len() ==> file_before(ns, #[trigger] out@[p] as int, #[trigger] out@[q] as int),
        decreases names@.len() - i,
    {
        let mut p: usize = 0;
        while p < out.len() && !less_than(names[out[p]].as_str(), names[i].as_str())
            invariant
                p <= out@.len(),
                i < names@.len(),
                ns == names@.map_values(|s: String| s@),
                forall|q: int| 0 <= q < out@.len() ==> #[trigger] out@[q] < i,
                forall|q: int| 0 <= q < p ==> !lex_lt(ns[#[trigger] out@[q] as int], ns[i as int]),
            decreases out@.len() - p,
        {
            p += 1;
        }
        let ghost before = out@;
        out.insert(p, i);
        proof {
            assert forall|a: int, b: int| 0 <= a < b < out@.len() implies file_before(
                ns,
                #[trigger] out@[a] as int,
                #[trigger] out@[b] as int,
            ) by {
                if b < p {
                    assert(file_before(ns, before[a] as int, before[b] as int));
                } else if b == p {
                    assert(out@[a] == before[a]);
                    lemma_lex_order(ns[before[a] as int], ns[i as int], ns[i as int]);
                } else if a < p {
                    assert(file_before(ns, before[a] as int, before[b - 1] as int));
                } else if a == p {
                    assert(out@[b] == before[b - 1]);
                    let x = ns[i as int];
                    let y = ns[before[p as int] as int];
                    let z = ns[before[b - 1] as int];
                    assert(lex_lt(y, x));
                    if b - 1 > p {
                        assert(file_before(ns, before[p as int] as int, before[b - 1] as int));
                        lemma_lex_order(z, y, x);
                    }
                } else {
                    assert(file_before(ns, before[a - 1] as int, before[b - 1] as int));
                }
            }
        }
        i += 1;
    }
    out
}

} // verus!
