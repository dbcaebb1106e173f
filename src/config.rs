//! The finalized search configuration: defaults from the known arguments,
//! then the command line, then case normalization.
use vstd::prelude::*;
use crate::arguments::{Argument, ArgumentView, DefaultValue, DefaultView, arguments_view};
use crate::text::{lower_of, lowercase, same_text};

verus! {

/// The texts of a list of strings.
pub open spec fn texts_of(v: Seq<String>) -> Seq<Seq<char>> {
    v.map_values(|s: String| s@)
}

/// What a search run is asked to do.
pub struct Config {
    /// Directory where the walk starts.
    pub dir: String,
    pub help: bool,
    /// Descend into subdirectories.
    pub recursive: bool,
    /// Search words, each a regular expression; duplicates are kept.
    pub words: Vec<String>,
    /// Lines that hold one of these as a plain substring are not matched.
    pub exclude: Vec<String>,
    pub case_sensitive: bool,
    pub verbose: bool,
    pub save_result: bool,
    /// Show each file's full path in the report, not its base name.
    pub full_path: bool,
    /// Look into entries whose name starts with a dot.
    pub hidden: bool,
    /// Look into files of every extension.
    pub all_files: bool,
}

/// The mathematical form of a `Config`.
pub struct ConfigView {
    pub dir: Seq<char>,
    pub help: bool,
    pub recursive: bool,
    pub words: Seq<Seq<char>>,
    pub exclude: Seq<Seq<char>>,
    pub case_sensitive: bool,
    pub verbose: bool,
    pub save_result: bool,
    pub full_path: bool,
    pub hidden: bool,
    pub all_files: bool,
}

impl View for Config {
    type V = ConfigView;

    open spec fn view(&self) -> ConfigView {
        ConfigView {
            dir: self.dir@,
            help: self.help,
            recursive: self.recursive,
            words: texts_of(self.words@),
            exclude: texts_of(self.exclude@),
            case_sensitive: self.case_sensitive,
            verbose: self.verbose,
            save_result: self.save_result,
            full_path: self.full_path,
            hidden: self.hidden,
            all_files: self.all_files,
        }
    }
}

impl Config {
    /// The search words as texts.
    pub open spec fn words_view(&self) -> Seq<Seq<char>> {
        texts_of(self.words@)
    }

    /// The exclusion terms as texts.
    pub open spec fn exclude_view(&self) -> Seq<Seq<char>> {
        texts_of(self.exclude@)
    }
}

/// The pieces of `s` between commas; an empty text is one empty piece.
pub open spec fn split_commas_spec(s: Seq<char>) -> Seq<Seq<char>>
    decreases s.len(),
{
    if s.len() == 0 {
        seq![Seq::empty()]
    } else {
        let rest = split_commas_spec(s.drop_last());
        if s.last() == ',' {
            rest.push(Seq::empty())
        } else {
            rest.update(rest.len() - 1, rest.last().push(s.last()))
        }
    }
}

proof fn lemma_split_nonempty(s: Seq<char>)
    ensures
        split_commas_spec(s).len() >= 1,
    decreases s.len(),
{
    if s.len() > 0 {
        lemma_split_nonempty(s.drop_last());
    }
}

/// The pieces of `s` between commas.
pub fn split_commas(s: &str) -> (r: Vec<String>)
    ensures
        texts_of(r@) == split_commas_spec(s@),
{
    let n = s.unicode_len();
    let mut out: Vec<String> = Vec::new();
    let mut start: usize = 0;
    let mut i: usize = 0;
    assert(s@.take(0) =~= Seq::<char>::empty());
    while i < n
        invariant
            n == s@.len(),
            start <= i <= n,
            texts_of(out@).push(s@.subrange(start as int, i as int)) == split_commas_spec(
                s@.take(i as int),
            ),
        decreases n - i,
    {
        let ghost prev = texts_of(out@).push(s@.subrange(start as int, i as int));
        assert(s@.take(i + 1).drop_last() =~= s@.take(i as int));
        proof {
            lemma_split_nonempty(s@.take(i as int));
        }
        if s.get_char(i) == ',' {
            let piece = String::from_str(s.substring_char(start, i));
            let ghost old_out = out@;
            out.push(piece);
            assert(texts_of(out@) =~= texts_of(old_out).push(s@.subrange(start as int, i as int)));
            start = i + 1;
            assert(s@.subrange(start as int, i + 1) =~= Seq::<char>::empty());
            assert(texts_of(out@).push(s@.subrange(start as int, i + 1)) =~= prev.push(
                Seq::empty(),
            ));
        } else {
            assert(s@.subrange(start as int, i + 1) =~= s@.subrange(start as int, i as int).push(
                s@[i as int],
            ));
            assert(texts_of(out@).push(s@.subrange(start as int, i + 1)) =~= prev.update(
                prev.len() - 1,
                prev.last().push(s@[i as int]),
            ));
        }
        i += 1;
    }
    let last = String::from_str(s.substring_char(start, n));
    out.push(last);
    assert(s@.take(n as int) =~= s@);
    assert(texts_of(out@) =~= split_commas_spec(s@));
    out
}

/// The default of the first argument of `list` named `id`.
pub open spec fn default_of(list: Seq<ArgumentView>, id: Seq<char>) -> Option<DefaultView>
    decreases list.len(),
{
    if list.len() == 0 {
        None
    } else if list[0].id == id {
        Some(list[0].default)
    } else {
        default_of(list.drop_first(), id)
    }
}

/// `list` has an argument named `id` whose default is a text.
pub open spec fn has_text(list: Seq<ArgumentView>, id: Seq<char>) -> bool {
    default_of(list, id) matches Some(DefaultView::Text(_))
}

/// `list` has an argument named `id` whose default is a flag.
pub open spec fn has_flag(list: Seq<ArgumentView>, id: Seq<char>) -> bool {
    default_of(list, id) matches Some(DefaultView::Bool(_))
}

/// The text default of the argument `id`.
pub open spec fn text_default(list: Seq<ArgumentView>, id: Seq<char>) -> Seq<char> {
    match default_of(list, id) {
        Some(DefaultView::Text(t)) => t,
        _ => Seq::empty(),
    }
}

/// The flag default of the argument `id`.
pub open spec fn flag_default(list: Seq<ArgumentView>, id: Seq<char>) -> bool {
    match default_of(list, id) {
        Some(DefaultView::Bool(b)) => b,
        _ => false,
    }
}

/// The list default of the argument `id`: none for an empty text, else its
/// comma-separated pieces.
pub open spec fn list_default(list: Seq<ArgumentView>, id: Seq<char>) -> Seq<Seq<char>> {
    let t = text_default(list, id);
    if t.len() == 0 {
        Seq::empty()
    } else {
        split_commas_spec(t)
    }
}

fn find_argument<'a>(id: &str, list: &'a Vec<Argument>) -> (r: Option<&'a Argument>)
    ensures
        r matches Some(a) ==> default_of(arguments_view(list@), id@) == Some(a@.default),
        r is None ==> default_of(arguments_view(list@), id@) is None,
{
    let ghost l = arguments_view(list@);
    let mut i: usize = 0;
    assert(l.skip(0) =~= l);
    while i < list.len()
        invariant
            i <= list@.len(),
            l == arguments_view(list@),
            default_of(l, id@) == default_of(l.skip(i as int), id@),
        decreases list@.len() - i,
    {
        assert(l.skip(i as int)[0] == list@[i as int]@);
        if same_text(list[i].id.as_str(), id) {
            return Some(&list[i]);
        }
        assert(l.skip(i as int).drop_first() =~= l.skip(i + 1));
        i += 1;
    }
    None
}

/// The text default of the argument `id`.
pub fn get_string_from(id: &str, list: &Vec<Argument>) -> (r: String)
    requires
        has_text(arguments_view(list@), id@),
    ensures
        r@ == text_default(arguments_view(list@), id@),
{
    let found = find_argument(id, list);
    match found {
        Some(a) => match &a.default {
            DefaultValue::Text(value) => value.clone(),
            DefaultValue::Bool(_) => {
                assert(false);
                String::new()
            },
        },
        None => String::new(),
    }
}

/// The list default of the argument `id`.
pub fn get_vector_from(id: &str, list: &Vec<Argument>) -> (r: Vec<String>)
    requires
        has_text(arguments_view(list@), id@),
    ensures
        texts_of(r@) == list_default(arguments_view(list@), id@),
{
    let string = get_string_from(id, list);
    if string.as_str().is_empty() {
        let r: Vec<String> = Vec::new();
        assert(texts_of(r@) =~= Seq::<Seq<char>>::empty());
        r
    } else {
        split_commas(string.as_str())
    }
}

/// The flag default of the argument `id`.
pub fn get_bool_from(id: &str, list: &Vec<Argument>) -> (r: bool)
    requires
        has_flag(arguments_view(list@), id@),
    ensures
        r == flag_default(arguments_view(list@), id@),
{
    let found = find_argument(id, list);
    match found {
        Some(a) => match &a.default {
            DefaultValue::Bool(value) => *value,
            DefaultValue::Text(_) => {
                assert(false);
                false
            },
        },
        None => false,
    }
}

/// `list` has every argument that a configuration is built from, each with
/// a default of its kind.
pub open spec fn arguments_ready(l: Seq<ArgumentView>) -> bool {
    &&& has_text(l, "words"@)
    &&& has_text(l, "dir"@)
    &&& has_text(l, "exclude"@)
    &&& has_flag(l, "help"@)
    &&& has_flag(l, "recursive"@)
    &&& has_flag(l, "case_sensitive"@)
    &&& has_flag(l, "verbose"@)
    &&& has_flag(l, "full_path"@)
    &&& has_flag(l, "save"@)
    &&& has_flag(l, "hidden"@)
    &&& has_flag(l, "all"@)
}

/// The configuration that the defaults of `l` give.
pub open spec fn defaults_view(l: Seq<ArgumentView>) -> ConfigView {
    ConfigView {
        words: list_default(l, "words"@),
        help: flag_default(l, "help"@),
        dir: text_default(l, "dir"@),
        recursive: flag_default(l, "recursive"@),
        exclude: list_default(l, "exclude"@),
        case_sensitive: flag_default(l, "case_sensitive"@),
        verbose: flag_default(l, "verbose"@),
        full_path: flag_default(l, "full_path"@),
        save_result: flag_default(l, "save"@),
        hidden: flag_default(l, "hidden"@),
        all_files: flag_default(l, "all"@),
    }
}

/// The argument after position `i`, or an empty text.
pub open spec fn next_or_empty(args: Seq<Seq<char>>, i: int) -> Seq<char> {
    if i + 1 < args.len() {
        args[i + 1]
    } else {
        Seq::empty()
    }
}

/// Where the command line goes on after an option at `i` that takes a value.
pub open spec fn after_value(args: Seq<Seq<char>>, i: int) -> int {
    if i + 1 < args.len() {
        i + 2
    } else {
        i + 1
    }
}

/// `a` is one of two spellings.
pub open spec fn either(a: Seq<char>, x: Seq<char>, y: Seq<char>) -> bool {
    a == x || a == y
}

/// The effect of the command-line argument at `i` on `v`, and where the
/// command line goes on: flags set their field, `-e` and `-d` take the next
/// argument (the comma-separated exclusions; the directory, `.` when
/// absent), anything else is a search word.
pub open spec fn arg_step(v: ConfigView, args: Seq<Seq<char>>, i: int) -> (ConfigView, int) {
    let a = args[i];
    if either(a, "-h"@, "--help"@) {
        (ConfigView { help: true, ..v }, i + 1)
    } else if either(a, "-r"@, "--recursive"@) {
        (ConfigView { recursive: true, ..v }, i + 1)
    } else if either(a, "-f"@, "--flat"@) {
        (ConfigView { recursive: false, ..v }, i + 1)
    } else if either(a, "-v"@, "--verbose"@) {
        (ConfigView { verbose: true, ..v }, i + 1)
    } else if either(a, "-cs"@, "--case_sensitive"@) {
        (ConfigView { case_sensitive: true, ..v }, i + 1)
    } else if either(a, "-s"@, "--save"@) {
        (ConfigView { save_result: true, ..v }, i + 1)
    } else if either(a, "-fp"@, "--full_path"@) {
        (ConfigView { full_path: true, ..v }, i + 1)
    } else if either(a, "-a"@, "--all"@) {
        (ConfigView { all_files: true, ..v }, i + 1)
    } else if either(a, "-hi"@, "--hidden"@) {
        (ConfigView { hidden: true, ..v }, i + 1)
    } else if either(a, "-e"@, "--exclude"@) {
        (
            ConfigView { exclude: split_commas_spec(next_or_empty(args, i)), ..v },
            after_value(args, i),
        )
    } else if either(a, "-d"@, "--dir"@) {
        (
            ConfigView {
                dir: if i + 1 < args.len() {
                    args[i + 1]
                } else {
                    "."@
                },
                ..v
            },
            after_value(args, i),
        )
    } else {
        (ConfigView { words: v.words.push(a), ..v }, i + 1)
    }
}

/// The configuration `v` after the command-line arguments from `i` on.
pub open spec fn apply_args(v: ConfigView, args: Seq<Seq<char>>, i: int) -> ConfigView
    decreases args.len() - i,
{
    if i < 0 || i >= args.len() {
        v
    } else {
        let (w, j) = arg_step(v, args, i);
        if j > i {
            apply_args(w, args, j)
        } else {
            w
        }
    }
}

/// Words and exclusions lower-cased, unless the search is case sensitive.
pub open spec fn normalize_case(v: ConfigView) -> ConfigView {
    if v.case_sensitive {
        v
    } else {
        ConfigView {
            words: v.words.map_values(|w: Seq<char>| lower_of(w)),
            exclude: v.exclude.map_values(|w: Seq<char>| lower_of(w)),
            ..v
        }
    }
}

/// The configuration `v` after the command line `args`.
pub open spec fn updated(v: ConfigView, args: Seq<Seq<char>>) -> ConfigView {
    normalize_case(apply_args(v, args, 0))
}

fn lowercase_all(v: &Vec<String>) -> (r: Vec<String>)
    ensures
        texts_of(r@) == texts_of(v@).map_values(|w: Seq<char>| lower_of(w)),
{
    let mut out: Vec<String> = Vec::new();
    let mut i: usize = 0;
    while i < v.len()
        invariant
            i <= v@.len(),
            out@.len() == i,
            forall|t: int| 0 <= t < i ==> #[trigger] out@[t]@ == lower_of(v@[t]@),
        decreases v@.len() - i,
    {
        out.push(lowercase(v[i].as_str()));
        i += 1;
    }
    assert(texts_of(out@) =~= texts_of(v@).map_values(|w: Seq<char>| lower_of(w)));
    out
}

impl Config {
    /// The configuration from the defaults of `args`, then the command
    /// line `cli` (without the program's name).
    pub fn new(args: &Vec<Argument>, cli: &Vec<String>) -> (r: Self)
        requires
            arguments_ready(arguments_view(args@)),
        ensures
            r@ == updated(defaults_view(arguments_view(args@)), texts_of(cli@)),
    {
        let mut out = Self {
            words: get_vector_from("words", args),
            help: get_bool_from("help", args),
            dir: get_string_from("dir", args),
            recursive: get_bool_from("recursive", args),
            exclude: get_vector_from("exclude", args),
            case_sensitive: get_bool_from("case_sensitive", args),
            verbose: get_bool_from("verbose", args),
            full_path: get_bool_from("full_path", args),
            save_result: get_bool_from("save", args),
            hidden: get_bool_from("hidden", args),
            all_files: get_bool_from("all", args),
        };
        assert(out@ == defaults_view(arguments_view(args@)));
        out.update(cli);
        out
    }

    /// Applies the argument at `i` of the command line; returns where the
    /// command line goes on.
    #[verifier::rlimit(50)]
    fn apply_one(&mut self, cli: &Vec<String>, i: usize) -> (next: usize)
        requires
            i < cli@.len(),
        ensures
            arg_step(old(self)@, texts_of(cli@), i as int) == (final(self)@, next as int),
            i < next <= cli@.len(),
    {
        let ghost a = texts_of(cli@);
        let n = cli.len();
        let arg = cli[i].as_str();
        assert(a[i as int] == arg@);
        if same_text(arg, "-h") || same_text(arg, "--help") {
            self.help = true;
            i + 1
        } else if same_text(arg, "-r") || same_text(arg, "--recursive") {
            self.recursive = true;
            i + 1
        } else if same_text(arg, "-f") || same_text(arg, "--flat") {
            self.recursive = false;
            i + 1
        } else if same_text(arg, "-v") || same_text(arg, "--verbose") {
            self.verbose = true;
            i + 1
        } else if same_text(arg, "-cs") || same_text(arg, "--case_sensitive") {
            self.case_sensitive = true;
            i + 1
        } else if same_text(arg, "-s") || same_text(arg, "--save") {
            self.save_result = true;
            i + 1
        } else if same_text(arg, "-fp") || same_text(arg, "--full_path") {
            self.full_path = true;
            i + 1
        } else if same_text(arg, "-a") || same_text(arg, "--all") {
            self.all_files = true;
            i + 1
        } else if same_text(arg, "-hi") || same_text(arg, "--hidden") {
            self.hidden = true;
            i + 1
        } else if same_text(arg, "-e") || same_text(arg, "--exclude") {
            if i + 1 < cli.len() {
                assert(a[i + 1] == cli@[i + 1]@);
                self.exclude = split_commas(cli[i + 1].as_str());
                i + 2
            } else {
                proof {
                    reveal_strlit("");
                }
                assert(""@ =~= Seq::<char>::empty());
                self.exclude = split_commas("");
                i + 1
            }
        } else if same_text(arg, "-d") || same_text(arg, "--dir") {
            if i + 1 < cli.len() {
                assert(a[i + 1] == cli@[i + 1]@);
                self.dir = cli[i + 1].clone();
                i + 2
            } else {
                self.dir = String::from_str(".");
                i + 1
            }
        } else {
            let ghost before = self.words@;
            self.words.push(cli[i].clone());
            assert(texts_of(self.words@) =~= texts_of(before).push(arg@));
            i + 1
        }
    }

    /// Applies the command line `cli` (without the program's name), then
    /// lower-cases words and exclusions unless the search is case
    /// sensitive.
    pub fn update(&mut self, cli: &Vec<String>)
        ensures
            final(self)@ == updated(old(self)@, texts_of(cli@)),
    {
        let ghost a = texts_of(cli@);
        let ghost start = self@;
        let mut i: usize = 0;
        while i < cli.len()
            invariant
                i <= cli@.len(),
                a == texts_of(cli@),
                apply_args(self@, a, i as int) == apply_args(start, a, 0),
            decreases cli@.len() - i,
        {
            let ghost before = self@;
            let next = self.apply_one(cli, i);
            assert(arg_step(before, a, i as int) == (self@, next as int));
            i = next;
        }
        if !self.case_sensitive {
            self.words = lowercase_all(&self.words);
            self.exclude = lowercase_all(&self.exclude);
        }
    }
}

proof fn lemma_default_at(l: Seq<ArgumentView>, id: Seq<char>, i: int)
    requires
        0 <= i < l.len(),
        l[i].id == id,
        forall|j: int| 0 <= j < i ==> l[j].id != id,
    ensures
        default_of(l, id) == Some(l[i].default),
    decreases i,
{
    if i > 0 {
        lemma_default_at(l.drop_first(), id, i - 1);
    }
}

/// The known arguments have all that a configuration is built from.
pub proof fn lemma_known_arguments_ready()
    ensures
        arguments_ready(crate::arguments::known_arguments()),
{
    reveal_strlit("words");
    reveal_strlit("help");
    reveal_strlit("recursive");
    reveal_strlit("case_sensitive");
    reveal_strlit("verbose");
    reveal_strlit("save");
    reveal_strlit("dir");
    reveal_strlit("full_path");
    reveal_strlit("exclude");
    reveal_strlit("all");
    reveal_strlit("hidden");
    let l = crate::arguments::known_arguments();
    assert forall|j: int, k: int| 0 <= j < k < 11 implies l[j].id != l[k].id by {
        assert(l[j].id.len() != l[k].id.len() || l[j].id[0] != l[k].id[0] || l[j].id[1] != l[k].id[1]);
    }
    lemma_default_at(l, l[0].id, 0);
    lemma_default_at(l, l[1].id, 1);
    lemma_default_at(l, l[2].id, 2);
    lemma_default_at(l, l[3].id, 3);
    lemma_default_at(l, l[4].id, 4);
    lemma_default_at(l, l[5].id, 5);
    lemma_default_at(l, l[6].id, 6);
    lemma_default_at(l, l[7].id, 7);
    lemma_default_at(l, l[8].id, 8);
    lemma_default_at(l, l[9].id, 9);
    lemma_default_at(l, l[10].id, 10);
}

} // verus!
