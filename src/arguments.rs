//! The command-line arguments the tool knows, with their defaults.
use vstd::prelude::*;

verus! {

/// An argument's default value.
pub enum DefaultValue {
    Bool(bool),
    Text(String),
}

/// The mathematical form of a `DefaultValue`.
pub enum DefaultView {
    Bool(bool),
    Text(Seq<char>),
}

impl View for DefaultValue {
    type V = DefaultView;

    open spec fn view(&self) -> DefaultView {
        match self {
            DefaultValue::Bool(b) => DefaultView::Bool(*b),
            DefaultValue::Text(s) => DefaultView::Text(s@),
        }
    }
}

/// One known argument.
pub struct Argument {
    /// The name the configuration looks it up by.
    pub id: String,
    /// Short flag, such as `-h`; empty for positional words.
    pub short: String,
    /// Long flag, such as `--help`.
    pub long: String,
    /// One line of help.
    pub help: String,
    pub default: DefaultValue,
}

/// The mathematical form of an `Argument`.
pub struct ArgumentView {
    pub id: Seq<char>,
    pub short: Seq<char>,
    pub long: Seq<char>,
    pub help: Seq<char>,
    pub default: DefaultView,
}

impl View for Argument {
    type V = ArgumentView;

    open spec fn view(&self) -> ArgumentView {
        ArgumentView {
            id: self.id@,
            short: self.short@,
            long: self.long@,
            help: self.help@,
            default: self.default@,
        }
    }
}

/// The views of a list of arguments.
pub open spec fn arguments_view(v: Seq<Argument>) -> Seq<ArgumentView> {
    v.map_values(|a: Argument| a@)
}

/// The known arguments, in the order of the help menu.
pub open spec fn known_arguments() -> Seq<ArgumentView> {
    seq![
        ArgumentView { id: "words"@, short: ""@, long: ""@, help: "Provide one or several words to look for"@, default: DefaultView::Text(""@) },
        ArgumentView { id: "help"@, short: "-h"@, long: "--help"@, help: "Show the help menu"@, default: DefaultView::Bool(false) },
        ArgumentView { id: "recursive"@, short: "-f"@, long: "--flat"@, help: "Make non recursive search (recursive is on by default)"@, default: DefaultView::Bool(true) },
        ArgumentView { id: "case_sensitive"@, short: "-cs"@, long: "--case_sensitive"@, help: "Apply case sensitivity"@, default: DefaultView::Bool(false) },
        ArgumentView { id: "verbose"@, short: "-v"@, long: "--verbose"@, help: "Show more details"@, default: DefaultView::Bool(false) },
        ArgumentView { id: "save"@, short: "-s"@, long: "--save"@, help: "Save the results in a file in the current path"@, default: DefaultView::Bool(false) },
        ArgumentView { id: "dir"@, short: "-d"@, long: "--dir"@, help: "Path from where the search will start (defaults to the current directory)"@, default: DefaultView::Text("."@) },
        ArgumentView { id: "full_path"@, short: "-fp"@, long: "--full_path"@, help: "Show the file's full path in the result view"@, default: DefaultView::Bool(false) },
        ArgumentView { id: "exclude"@, short: "-e"@, long: "--exclude"@, help: "Comma-separated list of words. Rows won't be matched if they include one of those words"@, default: DefaultView::Text(""@) },
        ArgumentView { id: "all"@, short: "-a"@, long: "--all"@, help: "Look into all kind of files"@, default: DefaultView::Bool(false) },
        ArgumentView { id: "hidden"@, short: "-hi"@, long: "--hidden"@, help: "Look into hidden files and directories (if recursive search is on)"@, default: DefaultView::Bool(false) },
    ]
}

fn flag(id: &str, short: &str, long: &str, help: &str, default: bool) -> (r: Argument)
    ensures
        r@ == (ArgumentView {
            id: id@,
            short: short@,
            long: long@,
            help: help@,
            default: DefaultView::Bool(default),
        }),
{
    Argument {
        id: String::from_str(id),
        short: String::from_str(short),
        long: String::from_str(long),
        help: String::from_str(help),
        default: DefaultValue::Bool(default),
    }
}

fn option(id: &str, short: &str, long: &str, help: &str, default: &str) -> (r: Argument)
    ensures
        r@ == (ArgumentView {
            id: id@,
            short: short@,
            long: long@,
            help: help@,
            default: DefaultView::Text(default@),
        }),
{
    Argument {
        id: String::from_str(id),
        short: String::from_str(short),
        long: String::from_str(long),
        help: String::from_str(help),
        default: DefaultValue::Text(String::from_str(default)),
    }
}

/// The known arguments with their defaults.
pub fn generate() -> (r: Vec<Argument>)
    ensures
        arguments_view(r@) == known_arguments(),
{
    let r = vec![
        option("words", "", "", "Provide one or several words to look for", ""),
        flag("help", "-h", "--help", "Show the help menu", false),
        flag("recursive", "-f", "--flat", "Make non recursive search (recursive is on by default)", true),
        flag("case_sensitive", "-cs", "--case_sensitive", "Apply case sensitivity", false),
        flag("verbose", "-v", "--verbose", "Show more details", false),
        flag("save", "-s", "--save", "Save the results in a file in the current path", false),
        option("dir", "-d", "--dir", "Path from where the search will start (defaults to the current directory)", "."),
        flag("full_path", "-fp", "--full_path", "Show the file's full path in the result view", false),
        option("exclude", "-e", "--exclude", "Comma-separated list of words. Rows won't be matched if they include one of those words", ""),
        flag("all", "-a", "--all", "Look into all kind of files", false),
        flag("hidden", "-hi", "--hidden", "Look into hidden files and directories (if recursive search is on)", false),
    ];
    assert(arguments_view(r@) =~= known_arguments());
    r
}

} // verus!
