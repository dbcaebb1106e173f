use grust::aggregate::{parse_results, FileSet};
use grust::arguments::{generate, DefaultValue};
use grust::config::{get_bool_from, get_string_from, get_vector_from, split_commas, Config};
use grust::display::{display_results, extract_filename, help_text, print_results};
use grust::matcher::Match;
use grust::order::{file_order, less_than, word_order};
use grust::pattern::{compile_words, WordPattern};
use grust::prepare_config;
use grust::scan::{is_excluded, row_matches, scan_lines, scan_step};
use grust::searcher::{entry_action, has_allowed_extension, total_matches, EntryAction, Stats};
use grust::text::{file_name, contains, decimal, ends_with, padded, padded_right, same_text};

fn strings(v: &[&str]) -> Vec<String> {
    v.iter().map(|x| x.to_string()).collect()
}

fn config(cli: &[&str]) -> Config {
    prepare_config(&strings(cli))
}

fn scan(file: &str, lines: &[&str], cfg: &Config) -> Vec<Match> {
    let patterns = compile_words(&cfg.words).unwrap();
    scan_lines(&file.to_string(), &strings(lines), cfg, &patterns)
}

fn rec(file: &str, word: &str, row: usize, count: usize) -> Match {
    Match { row, count, word: word.to_string(), data: String::new(), file: file.to_string() }
}

fn sorted_rows(table: &[FileSet]) -> Vec<(String, Vec<usize>, usize)> {
    let mut v: Vec<(String, Vec<usize>, usize)> =
        table.iter().map(|f| (f.file.clone(), f.words.clone(), f.count)).collect();
    v.sort();
    v
}

#[test]
fn case_insensitive_search_counts_every_case() {
    let cfg = config(&["Foo"]);
    assert_eq!(cfg.words, strings(&["foo"]));
    let r = scan("f.txt", &["foo FOO fOo"], &cfg);
    assert_eq!(r.len(), 1);
    assert_eq!(r[0].count, 3);
    assert_eq!(r[0].row, 0);
    assert_eq!(r[0].word, "foo");
    assert_eq!(r[0].data, "foo foo foo");
    assert_eq!(r[0].file, "f.txt");
}

#[test]
fn case_sensitive_search_keeps_case() {
    let cfg = config(&["Foo", "-cs"]);
    assert_eq!(cfg.words, strings(&["Foo"]));
    let r = scan("f.txt", &["foo FOO Foo Foo"], &cfg);
    assert_eq!(r.len(), 1);
    assert_eq!(r[0].count, 2);
}

#[test]
fn excluded_line_gives_no_match() {
    let cfg = config(&["cat", "-e", "skip"]);
    let r = scan("f.txt", &["cat skip", "cat"], &cfg);
    assert_eq!(r.len(), 1);
    assert_eq!(r[0].row, 1);
}

#[test]
fn exclusion_is_lower_cased_in_case_insensitive_mode() {
    let cfg = config(&["cat", "-e", "SKIP,Other"]);
    assert_eq!(cfg.exclude, strings(&["skip", "other"]));
    let r = scan("f.txt", &["cat Skip", "cat OTHER", "Cat"], &cfg);
    assert_eq!(r.len(), 1);
    assert_eq!(r[0].row, 2);
    assert!(is_excluded(&"a skip b".to_string(), &cfg.exclude));
    assert!(!is_excluded(&"a ski b".to_string(), &cfg.exclude));
}

#[test]
fn hidden_entries_are_skipped_unless_included() {
    let cfg = config(&["x"]);
    assert!(cfg.recursive);
    assert_eq!(entry_action(".hidden", true, &cfg), EntryAction::Skip);
    assert_eq!(entry_action("visible", true, &cfg), EntryAction::Descend);
    assert_eq!(entry_action("file.txt", false, &cfg), EntryAction::Scan);
    assert_eq!(entry_action(".file.txt", false, &cfg), EntryAction::Skip);
    let with_hidden = config(&["x", "-hi"]);
    assert_eq!(entry_action(".hidden", true, &with_hidden), EntryAction::Descend);
    let flat = config(&["x", "-f"]);
    assert_eq!(entry_action("visible", true, &flat), EntryAction::Skip);
    assert_eq!(entry_action("file.txt", false, &flat), EntryAction::Scan);
}

#[test]
fn two_files_end_to_end() {
    let cfg = config(&["cat", "dog", "-a", "-f"]);
    assert!(cfg.all_files);
    assert!(!cfg.recursive);
    let mut results = scan("a.txt", &["cat dog", "cat cat"], &cfg);
    results.extend(scan("b.txt", &["dog"], &cfg));
    let table = parse_results(&results, &cfg);
    assert_eq!(
        sorted_rows(&table),
        vec![(String::from("a.txt"), vec![3, 1], 3), (String::from("b.txt"), vec![0, 1], 1)]
    );
    let report = display_results(&results, &cfg);
    assert_eq!(report, " file | cat | dog\nb.txt |   0 |   1\na.txt |   3 |   1\nTOTAL |   3 |   2\n");
}

#[test]
fn six_empty_lines_end_the_scan() {
    let cfg = config(&["cat"]);
    let r = scan("f.txt", &["", "", "", "", "", "", "cat"], &cfg);
    assert!(r.is_empty());
    let r = scan("f.txt", &["", "", "", "", "", "cat"], &cfg);
    assert_eq!(r.len(), 1);
    assert_eq!(r[0].row, 5);
    let r = scan("f.txt", &["", "", "", "cat", "", "", "", "", "", "cat"], &cfg);
    assert_eq!(r.len(), 2);
}

#[test]
fn empty_records_give_empty_table() {
    let cfg = config(&["cat", "dog"]);
    let table = parse_results(&Vec::new(), &cfg);
    assert!(table.is_empty());
    assert_eq!(print_results(&table, &cfg), " file | cat | dog\nTOTAL |   0 |   0\n");
}

#[test]
fn aggregation_ignores_record_order() {
    let cfg = config(&["cat", "dog"]);
    let a = vec![rec("x", "cat", 0, 2), rec("y", "dog", 1, 1), rec("x", "dog", 2, 4), rec("y", "cat", 0, 1)];
    let b = vec![a[3].clone(), a[1].clone(), a[0].clone(), a[2].clone()];
    let ta = parse_results(&a, &cfg);
    let tb = parse_results(&b, &cfg);
    assert_eq!(sorted_rows(&ta), sorted_rows(&tb));
    assert_eq!(sorted_rows(&ta), vec![(String::from("x"), vec![2, 4], 2), (String::from("y"), vec![1, 1], 2)]);
}

#[test]
fn total_row_sums_record_counts() {
    let cfg = config(&["cat", "dog"]);
    let a = vec![rec("p/x", "cat", 0, 2), rec("q/y", "dog", 1, 10), rec("p/x", "dog", 2, 4), rec("q/y", "cat", 0, 1)];
    let report = display_results(&a, &cfg);
    let last = report.lines().last().unwrap();
    assert_eq!(last, "TOTAL |  14 |   3");
}

#[test]
fn full_path_and_word_order() {
    let cfg = config(&["cat", "dog", "-fp"]);
    let a = vec![rec("p/x", "cat", 0, 2), rec("q/y", "dog", 1, 10)];
    let report = display_results(&a, &cfg);
    assert_eq!(report, " file | dog | cat\n  q/y |  10 |   0\n  p/x |   0 |   2\nTOTAL |  10 |   2\n");
    assert_eq!(extract_filename(&"p/x".to_string(), &cfg), "p/x");
    let short = config(&["cat"]);
    assert_eq!(extract_filename(&"p/x".to_string(), &short), "x");
    assert_eq!(extract_filename(&"p/sub/".to_string(), &short), "sub");
    assert_eq!(extract_filename(&"p/..".to_string(), &short), "p/..");
}

#[test]
fn long_names_widen_the_first_column() {
    let cfg = config(&["cat"]);
    let a = vec![rec("dir/longer_name.txt", "cat", 0, 123456)];
    let report = display_results(&a, &cfg);
    let expected = format!(
        "{:>15} | {:>6}\n{:>15} | {:>6}\n{:>15} | {:>6}\n",
        "file", "cat", "longer_name.txt", 123456, "TOTAL", 123456
    );
    assert_eq!(report, expected);
}

#[test]
fn orders_are_stable() {
    assert_eq!(word_order(&vec![1, 3, 1, 3, 0]), vec![1, 3, 0, 2, 4]);
    assert_eq!(word_order(&vec![]), Vec::<usize>::new());
    assert_eq!(file_order(&strings(&["a", "c", "b", "c"])), vec![1, 3, 2, 0]);
    assert!(less_than("ab", "b"));
    assert!(less_than("a", "ab"));
    assert!(!less_than("ab", "ab"));
    assert!(!less_than("b", "ab"));
}

#[test]
fn invalid_pattern_is_reported_by_index() {
    assert_eq!(compile_words(&strings(&["ok", "foo(", "bar("])).err(), Some(1));
    assert!(compile_words(&strings(&[])).unwrap().is_empty());
    assert!(WordPattern::new(&"(".to_string()).is_none());
}

#[test]
fn words_are_regular_expressions() {
    let p = WordPattern::new(&"a+".to_string()).unwrap();
    assert_eq!(p.word(), "a+");
    assert_eq!(p.count_in("aaa baa"), 2);
    assert_eq!(p.count_in("bbb"), 0);
    let cfg = config(&["c.t", "-cs"]);
    let r = scan("f.txt", &["  cat cot cut  "], &cfg);
    assert_eq!(r.len(), 1);
    assert_eq!(r[0].count, 3);
    assert_eq!(r[0].data, "cat cot cut");
}

#[test]
fn one_record_per_matching_word() {
    let r = row_matches(
        &"f".to_string(),
        4,
        &"d".to_string(),
        &strings(&["a", "b", "c"]),
        &vec![2, 0, 1],
    );
    assert_eq!(r.len(), 2);
    assert_eq!((r[0].word.as_str(), r[0].count, r[0].row), ("a", 2, 4));
    assert_eq!((r[1].word.as_str(), r[1].count), ("c", 1));
}

#[test]
fn duplicate_words_are_kept() {
    let cfg = config(&["cat", "cat"]);
    let r = scan("f.txt", &["cat"], &cfg);
    assert_eq!(r.len(), 2);
}

#[test]
fn argument_defaults() {
    let args = generate();
    assert_eq!(args.len(), 11);
    assert_eq!(get_string_from("dir", &args), ".");
    assert!(get_vector_from("words", &args).is_empty());
    assert!(get_bool_from("recursive", &args));
    assert!(!get_bool_from("hidden", &args));
    assert_eq!(args[1].short, "-h");
    assert!(matches!(args[6].default, DefaultValue::Text(ref t) if t == "."));
}

#[test]
fn command_line_options() {
    let cfg = config(&["-d", "src", "word", "-v", "--full_path", "-s", "-h"]);
    assert_eq!(cfg.dir, "src");
    assert_eq!(cfg.words, strings(&["word"]));
    assert!(cfg.verbose && cfg.full_path && cfg.save_result && cfg.help);
    let cfg = config(&["-e"]);
    assert_eq!(cfg.exclude, strings(&[""]));
    let cfg = config(&["--dir"]);
    assert_eq!(cfg.dir, ".");
    let cfg = config(&[]);
    assert!(cfg.words.is_empty() && cfg.exclude.is_empty());
    assert_eq!(cfg.dir, ".");
}

#[test]
fn comma_lists() {
    assert_eq!(split_commas("a,,b"), strings(&["a", "", "b"]));
    assert_eq!(split_commas(""), strings(&[""]));
    assert_eq!(split_commas("a,"), strings(&["a", ""]));
}

#[test]
fn help_menu() {
    let h = help_text(&generate());
    assert!(h.starts_with("\nShow files where your keywords have been found!\ngrust [OPTIONS] [FLAGS] word1 word2 \"sentence 1\"\n\nFLAGS:\n"));
    assert!(h.contains(&format!("   {:3}   {:20}   {}\n", "-h", "--help", "Show the help menu")));
    assert!(h.contains(&format!("\nOPTIONS:\n  {:3}    {:20}   {}\n", "-d", "--dir", "Path from where the search will start (defaults to the current directory)")));
    assert!(!h.contains("Provide one or several words"));
}

#[test]
fn text_helpers() {
    assert_eq!(decimal(0), "0");
    assert_eq!(decimal(1234), "1234");
    assert_eq!(padded("ab", 4), "  ab");
    assert_eq!(padded("abcde", 4), "abcde");
    assert_eq!(padded_right("ab", 4), "ab  ");
    assert_eq!(file_name("a/b/c.txt"), Some(String::from("c.txt")));
    assert_eq!(file_name("c.txt"), Some(String::from("c.txt")));
    assert_eq!(file_name("dir/sub/"), Some(String::from("sub")));
    assert_eq!(file_name("a/."), Some(String::from("a")));
    assert_eq!(file_name("a//b/./"), Some(String::from("b")));
    assert_eq!(file_name("./a"), Some(String::from("a")));
    assert_eq!(file_name("a/.."), None);
    assert_eq!(file_name("/"), None);
    assert_eq!(file_name("."), None);
    assert_eq!(file_name(""), None);
    assert!(contains("hello", "ll"));
    assert!(contains("hello", ""));
    assert!(!contains("hello", "lo!"));
    assert!(ends_with("x.tfstate", ".tfstate"));
    assert!(!ends_with("x.rs.bak", ".rs"));
    assert!(same_text("é", "é"));
    assert!(!same_text("a", "ab"));
}

#[test]
fn extension_filter_and_counters() {
    assert!(has_allowed_extension("main.rs"));
    assert!(has_allowed_extension("state.tfstate"));
    assert!(!has_allowed_extension("image.png"));
    let cfg = config(&["x"]);
    let mut stats = Stats::new();
    assert!(!stats.admit_file("image.png", &cfg));
    assert!(stats.admit_file("notes.txt", &cfg));
    assert!(stats.admit_file("other.md", &cfg));
    stats.record_analyzed();
    assert_eq!((stats.seen, stats.skipped, stats.analyzed), (3, 1, 1));
    assert_eq!(stats.unreadable(), 1);
    let all = config(&["x", "--all"]);
    assert!(stats.admit_file("image.png", &all));
}

#[test]
fn total_of_matches() {
    assert_eq!(total_matches(&vec![rec("a", "w", 0, 2), rec("b", "w", 0, 5)]), Some(7));
    assert_eq!(total_matches(&vec![rec("a", "w", 0, usize::MAX), rec("b", "w", 0, 1)]), None);
}

#[test]
fn line_steps_stop_after_the_empty_run() {
    let cfg = config(&["cat"]);
    let patterns = compile_words(&cfg.words).unwrap();
    let file = String::from("f.txt");
    let step = scan_step(&file, 0, 0, &String::from("cat cat"), &cfg, &patterns);
    assert_eq!((step.records.len(), step.run, step.stop), (1, 0, false));
    assert_eq!(step.records[0].count, 2);
    let step = scan_step(&file, 1, 4, &String::new(), &cfg, &patterns);
    assert_eq!((step.records.len(), step.run, step.stop), (0, 5, false));
    let step = scan_step(&file, 2, 5, &String::new(), &cfg, &patterns);
    assert!(step.stop);
    let step = scan_step(&file, 3, 5, &String::from("dog"), &cfg, &patterns);
    assert_eq!((step.records.len(), step.run, step.stop), (0, 0, false));
}
