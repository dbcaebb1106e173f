//! The report: a header, one line per file and a TOTAL line, columns
//! separated by `" | "` and right-aligned.
use vstd::prelude::*;
use crate::aggregate::{
    FileRow, FileSet, column_sum, is_table_of, lemma_column_sum_is_word_total, parse_results,
    lemma_word_total_le, rows_of, total_count, word_total,
};
use crate::config::{Config, texts_of};
use crate::matcher::{Match, MatchRecord, records_of};
use crate::order::{file_order, is_file_order, is_word_order, word_order};
use crate::arguments::{Argument, ArgumentView, DefaultValue, arguments_view};
use crate::text::{file_name, file_name_of, decimal, decimal_of, pad_left, pad_right, padded, padded_right};

verus! {

/// The label of the last line.
pub open spec fn total_label() -> Seq<char> {
    seq!['T', 'O', 'T', 'A', 'L']
}

/// The label of the first column in the header.
pub open spec fn file_label() -> Seq<char> {
    seq!['f', 'i', 'l', 'e']
}

/// The column separator.
pub open spec fn separator() -> Seq<char> {
    seq![' ', '|', ' ']
}

/// The name under which a file is shown: its full path, or else its final
/// component (the full path where it has none).
pub open spec fn display_name(file: Seq<char>, full_path: bool) -> Seq<char> {
    if full_path {
        file
    } else {
        match file_name_of(file) {
            Some(name) => name,
            None => file,
        }
    }
}

/// The cells `cells[o[0]], cells[o[1]], ...`, each after a separator and
/// right-aligned to its width.
pub open spec fn cells_text(cells: Seq<Seq<char>>, widths: Seq<nat>, o: Seq<usize>) -> Seq<char>
    decreases o.len(),
{
    if o.len() == 0 {
        Seq::empty()
    } else {
        cells_text(cells, widths, o.drop_last()) + separator() + pad_left(
            cells[o.last() as int],
            widths[o.last() as int],
        )
    }
}

/// One line of the report, with its end of line.
pub open spec fn line_text(
    label: Seq<char>,
    width: nat,
    cells: Seq<Seq<char>>,
    widths: Seq<nat>,
    o: Seq<usize>,
) -> Seq<char> {
    pad_left(label, width) + cells_text(cells, widths, o) + seq!['\n']
}

/// The width of the first column: the longest of the names and of the
/// label TOTAL.
pub open spec fn name_width(names: Seq<Seq<char>>) -> nat
    decreases names.len(),
{
    if names.len() == 0 {
        total_label().len()
    } else {
        let w = name_width(names.drop_last());
        if names.last().len() > w {
            names.last().len()
        } else {
            w
        }
    }
}

/// Each word's total over the rows.
pub open spec fn totals_of(rows: Seq<FileRow>, n: nat) -> Seq<int> {
    Seq::new(n, |k: int| column_sum(rows, k))
}

/// Each column's width: the longer of its word and of its total.
pub open spec fn widths_of(words: Seq<Seq<char>>, totals: Seq<int>) -> Seq<nat> {
    Seq::new(
        words.len(),
        |k: int|
            if words[k].len() >= decimal_of(totals[k] as nat).len() {
                words[k].len()
            } else {
                decimal_of(totals[k] as nat).len()
            },
    )
}

/// Decimal forms of numbers.
pub open spec fn decimals(v: Seq<int>) -> Seq<Seq<char>> {
    Seq::new(v.len(), |k: int| decimal_of(v[k] as nat))
}

/// The shown names of the rows.
pub open spec fn names_of(rows: Seq<FileRow>, full_path: bool) -> Seq<Seq<char>> {
    rows.map_values(|r: FileRow| display_name(r.file, full_path))
}

/// The file lines, rows taken in the order `fo`, words in the order `wo`.
pub open spec fn rows_text(
    rows: Seq<FileRow>,
    names: Seq<Seq<char>>,
    width: nat,
    widths: Seq<nat>,
    wo: Seq<usize>,
    fo: Seq<usize>,
) -> Seq<char>
    decreases fo.len(),
{
    if fo.len() == 0 {
        Seq::empty()
    } else {
        let j = fo.last() as int;
        rows_text(rows, names, width, widths, wo, fo.drop_last()) + line_text(
            names[j],
            width,
            decimals(rows[j].words),
            widths,
            wo,
        )
    }
}

/// The report of the table `rows` for `words`, given the word order `wo`
/// and the file order `fo`.
pub open spec fn report_text(
    rows: Seq<FileRow>,
    words: Seq<Seq<char>>,
    full_path: bool,
    wo: Seq<usize>,
    fo: Seq<usize>,
) -> Seq<char> {
    let totals = totals_of(rows, words.len());
    let names = names_of(rows, full_path);
    let width = name_width(names);
    let widths = widths_of(words, totals);
    line_text(file_label(), width, words, widths, wo) + rows_text(
        rows,
        names,
        width,
        widths,
        wo,
        fo,
    ) + line_text(total_label(), width, decimals(totals), widths, wo)
}

/// `text` is the report of `rows`: words by descending total (ties in
/// configured order), files by descending shown name (ties in table order).
pub open spec fn is_report(rows: Seq<FileRow>, words: Seq<Seq<char>>, full_path: bool, text: Seq<char>) -> bool {
    exists|wo: Seq<usize>, fo: Seq<usize>|
        is_word_order(totals_of(rows, words.len()), wo) && is_file_order(
            names_of(rows, full_path),
            fo,
        ) && text == report_text(rows, words, full_path, wo, fo)
}

/// The name under which `file` is shown: its full path, or else its final
/// component (the full path where it has none).
pub fn extract_filename(file: &String, config: &Config) -> (r: String)
    ensures
        r@ == display_name(file@, config.full_path),
{
    if config.full_path {
        file.clone()
    } else {
        match file_name(file.as_str()) {
            Some(name) => name,
            None => file.clone(),
        }
    }
}

/// One line of the report.
fn line(label: &str, width: usize, cells: &Vec<String>, widths: &Vec<usize>, o: &Vec<usize>) -> (r:
    String)
    requires
        cells@.len() == widths@.len(),
        forall|p: int| 0 <= p < o@.len() ==> #[trigger] o@[p] < cells@.len(),
    ensures
        r@ == line_text(
            label@,
            width as nat,
            texts_of(cells@),
            widths@.map_values(|w: usize| w as nat),
            o@,
        ),
{
    let ghost cs = texts_of(cells@);
    let ghost ws = widths@.map_values(|w: usize| w as nat);
    let mut out = padded(label, width);
    let ghost head = out@;
    let mut p: usize = 0;
    while p < o.len()
        invariant
            p <= o@.len(),
            cells@.len() == widths@.len(),
            cs == texts_of(cells@),
            ws == widths@.map_values(|w: usize| w as nat),
            forall|q: int| 0 <= q < o@.len() ==> #[trigger] o@[q] < cells@.len(),
            out@ == head + cells_text(cs, ws, o@.take(p as int)),
        decreases o@.len() - p,
    {
        let k = o[p];
        let ghost prev = out@;
        proof {
            reveal_strlit(" | ");
        }
        out.append(" | ");
        let cell = padded(cells[k].as_str(), widths[k]);
        out.append(cell.as_str());
        assert(o@.take(p + 1).drop_last() =~= o@.take(p as int));
        assert(out@ =~= head + cells_text(cs, ws, o@.take(p + 1)));
        p += 1;
    }
    proof {
        reveal_strlit("\n");
    }
    out.append("\n");
    assert(o@.take(o@.len() as int) =~= o@);
    out
}

proof fn lemma_column_prefix(rows: Seq<FileRow>, j: int, k: int)
    requires
        0 <= j <= rows.len(),
        forall|t: int| 0 <= t < rows.len() ==> 0 <= #[trigger] rows[t].words[k],
    ensures
        column_sum(rows.take(j), k) <= column_sum(rows, k),
        j < rows.len() ==> column_sum(rows.take(j + 1), k) == column_sum(rows.take(j), k)
            + rows[j].words[k],
    decreases rows.len() - j,
{
    if j < rows.len() {
        assert(rows.take(j + 1).drop_last() =~= rows.take(j));
        lemma_column_prefix(rows, j + 1, k);
    } else {
        assert(rows.take(j) =~= rows);
    }
}

/// Each word's total over the table.
fn column_totals(dataset: &Vec<FileSet>, n: usize) -> (r: Vec<usize>)
    requires
        forall|j: int| 0 <= j < dataset@.len() ==> #[trigger] dataset@[j].words@.len() == n,
        forall|k: int| 0 <= k < n ==> column_sum(rows_of(dataset@), k) <= usize::MAX,
    ensures
        r@.map_values(|t: usize| t as int) == totals_of(rows_of(dataset@), n as nat),
{
    let ghost rows = rows_of(dataset@);
    let mut out: Vec<usize> = Vec::new();
    let mut k: usize = 0;
    while k < n
        invariant
            k <= n,
            rows == rows_of(dataset@),
            forall|j: int| 0 <= j < dataset@.len() ==> #[trigger] dataset@[j].words@.len() == n,
            forall|k: int| 0 <= k < n ==> column_sum(rows, k) <= usize::MAX,
            out@.len() == k,
            forall|t: int| 0 <= t < k ==> #[trigger] out@[t] as int == column_sum(rows, t),
        decreases n - k,
    {
        let mut sum: usize = 0;
        let mut j: usize = 0;
        assert(rows.take(0) =~= Seq::<FileRow>::empty());
        while j < dataset.len()
            invariant
                k < n,
                j <= dataset@.len(),
                rows == rows_of(dataset@),
                forall|j: int| 0 <= j < dataset@.len() ==> #[trigger] dataset@[j].words@.len() == n,
                column_sum(rows, k as int) <= usize::MAX,
                sum as int == column_sum(rows.take(j as int), k as int),
            decreases dataset@.len() - j,
        {
            proof {
                assert forall|t: int| 0 <= t < rows.len() implies 0 <= #[trigger] rows[t].words[k as int] by {
                    assert(rows[t] == dataset@[t]@);
                }
                lemma_column_prefix(rows, j + 1, k as int);
                lemma_column_prefix(rows, j as int, k as int);
                assert(rows[j as int].words[k as int] == dataset@[j as int].words@[k as int]);
            }
            sum = sum + dataset[j].words[k];
            j += 1;
        }
        assert(rows.take(dataset@.len() as int) =~= rows);
        out.push(sum);
        k += 1;
    }
    assert(out@.map_values(|t: usize| t as int) =~= totals_of(rows, n as nat));
    out
}

/// Renders the table as the report: words by descending total (equal
/// totals keep their configured order), one line per file by descending
/// shown name, and a TOTAL line with each word's sum over the files.
pub fn print_results(dataset: &Vec<FileSet>, config: &Config) -> (r: String)
    requires
        forall|j: int|
            0 <= j < dataset@.len() ==> #[trigger] dataset@[j].words@.len() == config.words@.len(),
        forall|k: int|
            0 <= k < config.words@.len() ==> column_sum(rows_of(dataset@), k) <= usize::MAX,
    ensures
        is_report(rows_of(dataset@), config.words_view(), config.full_path, r@),
{
    let ghost rows = rows_of(dataset@);
    let ghost words = config.words_view();
    let n = config.words.len();
    let totals = column_totals(dataset, n);
    let ghost ts = totals_of(rows, n as nat);
    let wo = word_order(&totals);
    assert(totals@.map_values(|t: usize| t as int).len() == totals@.len());
    // column widths
    let mut widths: Vec<usize> = Vec::new();
    let mut total_cells: Vec<String> = Vec::new();
    let mut k: usize = 0;
    while k < n
        invariant
            k <= n,
            n == words.len(),
            words == config.words_view(),
            totals@.map_values(|t: usize| t as int) == ts,
            ts == totals_of(rows, n as nat),
            totals@.len() == n,
            widths@.len() == k,
            total_cells@.len() == k,
            forall|t: int| 0 <= t < k ==> #[trigger] widths@[t] as nat == widths_of(words, ts)[t],
            forall|t: int| 0 <= t < k ==> #[trigger] total_cells@[t]@ == decimals(ts)[t],
        decreases n - k,
    {
        assert(totals@.map_values(|t: usize| t as int)[k as int] == totals@[k as int] as int);
        let d = decimal(totals[k]);
        let a = config.words[k].as_str().unicode_len();
        let b = d.as_str().unicode_len();
        widths.push(if a >= b { a } else { b });
        total_cells.push(d);
        k += 1;
    }
    let ghost ws = widths_of(words, ts);
    assert(widths@.map_values(|w: usize| w as nat) =~= ws);
    assert(texts_of(total_cells@) =~= decimals(ts));
    // shown names and the first column's width
    let mut names: Vec<String> = Vec::new();
    let mut width: usize = 5;
    let mut j: usize = 0;
    assert(names_of(rows, config.full_path).take(0) =~= Seq::<Seq<char>>::empty());
    while j < dataset.len()
        invariant
            j <= dataset@.len(),
            rows == rows_of(dataset@),
            names@.len() == j,
            forall|t: int| 0 <= t < j ==> #[trigger] names@[t]@ == names_of(rows, config.full_path)[t],
            width as nat == name_width(names_of(rows, config.full_path).take(j as int)),
        decreases dataset@.len() - j,
    {
        let name = extract_filename(&dataset[j].file, config);
        let len = name.as_str().unicode_len();
        let ghost ns = names_of(rows, config.full_path);
        assert(ns.take(j + 1).drop_last() =~= ns.take(j as int));
        assert(ns[j as int] == name@);
        if len > width {
            width = len;
        }
        names.push(name);
        j += 1;
    }
    let ghost ns = names_of(rows, config.full_path);
    assert(ns.take(dataset@.len() as int) =~= ns);
    assert(texts_of(names@) =~= ns);
    let fo = file_order(&names);
    // the lines
    proof {
        reveal_strlit("file");
        reveal_strlit("TOTAL");
        assert("file"@ =~= file_label());
        assert("TOTAL"@ =~= total_label());
        assert(texts_of(config.words@) == words);
    }
    let mut out = line("file", width, &config.words, &widths, &wo);
    let ghost head = out@;
    let mut q: usize = 0;
    while q < fo.len()
        invariant
            q <= fo@.len(),
            fo@.len() == dataset@.len(),
            names@.len() == dataset@.len(),
            widths@.len() == n,
            wo@.len() == n,
            n == config.words@.len(),
            forall|p: int| 0 <= p < wo@.len() ==> #[trigger] wo@[p] < n,
            forall|p: int| 0 <= p < fo@.len() ==> #[trigger] fo@[p] < dataset@.len(),
            forall|j: int| 0 <= j < dataset@.len() ==> #[trigger] dataset@[j].words@.len() == n,
            rows == rows_of(dataset@),
            texts_of(names@) == ns,
            widths@.map_values(|w: usize| w as nat) == ws,
            out@ == head + rows_text(rows, ns, width as nat, ws, wo@, fo@.take(q as int)),
        decreases fo@.len() - q,
    {
        let jj = fo[q];
        let mut cells: Vec<String> = Vec::new();
        let mut k: usize = 0;
        while k < n
            invariant
                k <= n,
                jj < dataset@.len(),
                dataset@[jj as int].words@.len() == n,
                rows == rows_of(dataset@),
                cells@.len() == k,
                forall|t: int| 0 <= t < k ==> #[trigger] cells@[t]@ == decimals(rows[jj as int].words)[t],
            decreases n - k,
        {
            assert(rows[jj as int].words[k as int] == dataset@[jj as int].words@[k as int]);
            cells.push(decimal(dataset[jj].words[k]));
            k += 1;
        }
        assert(texts_of(cells@) =~= decimals(rows[jj as int].words));
        assert(names@[jj as int]@ == ns[jj as int]);
        let l = line(names[jj].as_str(), width, &cells, &widths, &wo);
        out.append(l.as_str());
        assert(fo@.take(q + 1).drop_last() =~= fo@.take(q as int));
        assert(out@ =~= head + rows_text(rows, ns, width as nat, ws, wo@, fo@.take(q + 1)));
        q += 1;
    }
    assert(fo@.take(fo@.len() as int) =~= fo@);
    let last = line("TOTAL", width, &total_cells, &widths, &wo);
    out.append(last.as_str());
    assert(totals@.map_values(|t: usize| t as int) == ts);
    assert(out@ =~= report_text(rows, words, config.full_path, wo@, fo@));
    out
}

/// The numbers of the TOTAL line of the report of a table: for each word,
/// the sum of the counts of all the records of that word.
pub proof fn lemma_total_line_counts_records(
    rows: Seq<FileRow>,
    s: Seq<MatchRecord>,
    words: Seq<Seq<char>>,
)
    requires
        is_table_of(rows, s, words),
    ensures
        totals_of(rows, words.len()) == Seq::new(words.len(), |k: int| word_total(s, words[k])),
{
    assert forall|k: int| 0 <= k < words.len() implies column_sum(rows, k) == word_total(
        s,
        words[k],
    ) by {
        lemma_column_sum_is_word_total(rows, s, words, k);
    }
    assert(totals_of(rows, words.len()) =~= Seq::new(words.len(), |k: int| word_total(s, words[k])));
}

/// The report of the match records: they are folded into the occurrence
/// table, which is then rendered.
pub fn display_results(results: &Vec<Match>, config: &Config) -> (r: String)
    requires
        total_count(records_of(results@)) <= usize::MAX,
    ensures
        exists|rows: Seq<FileRow>|
            is_table_of(rows, records_of(results@), config.words_view()) && is_report(
                rows,
                config.words_view(),
                config.full_path,
                r@,
            ),
{
    let to_display = parse_results(results, config);
    let ghost rows = rows_of(to_display@);
    let ghost s = records_of(results@);
    let ghost words = config.words_view();
    proof {
        assert forall|k: int| 0 <= k < config.words@.len() implies column_sum(rows, k) <= usize::MAX by {
            lemma_column_sum_is_word_total(rows, s, words, k);
            lemma_word_total_le(s, words[k]);
        }
        assert forall|j: int| 0 <= j < to_display@.len() implies #[trigger] to_display@[j].words@.len()
            == config.words@.len() by {
            assert(rows[j] == to_display@[j]@);
            assert(rows[j] == crate::aggregate::expected_row(s, words, rows[j].file));
            assert(rows[j].words.len() == words.len());
            assert(to_display@[j]@.words.len() == to_display@[j].words@.len());
            assert(words.len() == config.words@.len());
        }
    }
    print_results(&to_display, config)
}

/// The help line of a flag.
pub open spec fn flag_line(a: ArgumentView) -> Seq<char> {
    "   "@ + pad_right(a.short, 3) + "   "@ + pad_right(a.long, 20) + "   "@ + a.help + "\n"@
}

/// The help line of an option.
pub open spec fn option_line(a: ArgumentView) -> Seq<char> {
    "  "@ + pad_right(a.short, 3) + "    "@ + pad_right(a.long, 20) + "   "@ + a.help + "\n"@
}

/// The help lines of the flags (arguments with a flag default) among
/// `l[..k]`, in order.
pub open spec fn flag_lines(l: Seq<ArgumentView>, k: int) -> Seq<char>
    decreases k,
{
    if k <= 0 {
        Seq::empty()
    } else if l[k - 1].default is Bool {
        flag_lines(l, k - 1) + flag_line(l[k - 1])
    } else {
        flag_lines(l, k - 1)
    }
}

/// The help lines of the options (arguments with a text default and a
/// short form) among `l[..k]`, in order.
pub open spec fn option_lines(l: Seq<ArgumentView>, k: int) -> Seq<char>
    decreases k,
{
    if k <= 0 {
        Seq::empty()
    } else if l[k - 1].default is Text && l[k - 1].short.len() > 0 {
        option_lines(l, k - 1) + option_line(l[k - 1])
    } else {
        option_lines(l, k - 1)
    }
}

/// The help menu for the arguments `l`.
pub open spec fn help_spec(l: Seq<ArgumentView>) -> Seq<char> {
    "\nShow files where your keywords have been found!\n"@
        + "grust [OPTIONS] [FLAGS] word1 word2 \"sentence 1\"\n\n"@ + "FLAGS:\n"@ + flag_lines(
        l,
        l.len() as int,
    ) + "\nOPTIONS:\n"@ + option_lines(l, l.len() as int)
}

/// The help menu: the flags, then the options that have a short form.
pub fn help_text(parameters: &Vec<Argument>) -> (r: String)
    ensures
        r@ == help_spec(arguments_view(parameters@)),
{
    let ghost l = arguments_view(parameters@);
    let mut out = String::from_str("\nShow files where your keywords have been found!\n");
    out.append("grust [OPTIONS] [FLAGS] word1 word2 \"sentence 1\"\n\n");
    out.append("FLAGS:\n");
    let ghost head = out@;
    let mut i: usize = 0;
    while i < parameters.len()
        invariant
            i <= parameters@.len(),
            l == arguments_view(parameters@),
            out@ == head + flag_lines(l, i as int),
        decreases parameters@.len() - i,
    {
        let p = &parameters[i];
        assert(l[i as int] == p@);
        if let DefaultValue::Bool(_) = p.default {
            out.append("   ");
            out.append(padded_right(p.short.as_str(), 3).as_str());
            out.append("   ");
            out.append(padded_right(p.long.as_str(), 20).as_str());
            out.append("   ");
            out.append(p.help.as_str());
            out.append("\n");
            assert(out@ =~= head + flag_lines(l, i + 1));
        }
        i += 1;
    }
    out.append("\nOPTIONS:\n");
    let ghost mid = out@;
    let mut i: usize = 0;
    while i < parameters.len()
        invariant
            i <= parameters@.len(),
            l == arguments_view(parameters@),
            out@ == mid + option_lines(l, i as int),
        decreases parameters@.len() - i,
    {
        let p = &parameters[i];
        assert(l[i as int] == p@);
        if let DefaultValue::Text(_) = p.default {
            if !p.short.as_str().is_empty() {
                out.append("  ");
                out.append(padded_right(p.short.as_str(), 3).as_str());
                out.append("    ");
                out.append(padded_right(p.long.as_str(), 20).as_str());
                out.append("   ");
                out.append(p.help.as_str());
                out.append("\n");
                assert(out@ =~= mid + option_lines(l, i + 1));
            }
        }
        i += 1;
    }
    assert(out@ =~= help_spec(l));
    out
}

} // verus!
