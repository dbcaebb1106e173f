//! Search words compiled once into regular expressions, and their match counts.
use vstd::prelude::*;

verus! {

#[verifier::external_type_specification]
#[verifier::external_body]
pub struct ExRegex(regex::Regex);

#[verifier::external_type_specification]
#[verifier::external_body]
pub struct ExRegexError(regex::Error);

/// Whether `regex::Regex::new` accepts a pattern.
pub uninterp spec fn pattern_compiles(p: Seq<char>) -> bool;

/// How many successive non-overlapping matches `regex::Regex::find_iter`
/// reports for a pattern on a line.
pub uninterp spec fn match_count(p: Seq<char>, line: Seq<char>) -> nat;

/// Relies on `regex::Regex::new`: it fails on a pattern that is not valid
/// syntax or that exceeds the default size limit, which depends on the
/// pattern alone.
#[verifier::external_body]
fn compile(p: &str) -> (r: Result<regex::Regex, regex::Error>)
    ensures
        r is Ok <==> pattern_compiles(p@),
{
    regex::Regex::new(p)
}

/// A search word together with the regular expression compiled from it.
/// The fields are private so that `re` is always compiled from `word`.
pub struct WordPattern {
    word: String,
    re: regex::Regex,
}

impl View for WordPattern {
    type V = Seq<char>;

    closed spec fn view(&self) -> Seq<char> {
        self.word@
    }
}

/// Relies on `regex::Regex::find_iter`: the number of successive
/// non-overlapping matches of the pattern in `line` (the regex in `p` is
/// compiled from `p`'s word).
#[verifier::external_body]
fn find_count(p: &WordPattern, line: &str) -> (r: usize)
    ensures
        r == match_count(p@, line@),
{
    p.re.find_iter(line).count()
}

impl WordPattern {
    /// Compiles `word`; `None` where it is not an accepted pattern.
    pub fn new(word: &String) -> (r: Option<WordPattern>)
        ensures
            r is Some <==> pattern_compiles(word@),
            r matches Some(p) ==> p@ == word@,
    {
        match compile(word.as_str()) {
            Ok(re) => Some(WordPattern { word: word.clone(), re }),
            Err(_) => None,
        }
    }

    /// The word that this pattern was compiled from.
    pub fn word(&self) -> (r: &String)
        ensures
            r@ == self@,
    {
        &self.word
    }

    /// Number of non-overlapping matches of this pattern in `line`.
    pub fn count_in(&self, line: &str) -> (r: usize)
        ensures
            r == match_count(self@, line@),
    {
        find_count(self, line)
    }
}

/// Index of the first word that is not an accepted pattern.
pub open spec fn first_invalid(words: Seq<Seq<char>>, i: int) -> bool {
    0 <= i < words.len() && !pattern_compiles(words[i]) && forall|j: int|
        0 <= j < i ==> pattern_compiles(words[j])
}

/// Compiles every search word once. On failure, returns the index of the
/// first word that is not an accepted pattern.
pub fn compile_words(words: &Vec<String>) -> (r: Result<Vec<WordPattern>, usize>)
    ensures
        r matches Ok(ps) ==> ps@.len() == words@.len() && forall|k: int|
            0 <= k < words@.len() ==> #[trigger] ps@[k]@ == words@[k]@,
        r matches Err(i) ==> first_invalid(words@.map_values(|w: String| w@), i as int),
        r is Ok <==> forall|k: int| 0 <= k < words@.len() ==> pattern_compiles(#[trigger] words@[k]@),
{
    let mut out: Vec<WordPattern> = Vec::new();
    let mut i: usize = 0;
    while i < words.len()
        invariant
            i <= words@.len(),
            out@.len() == i,
            forall|k: int| 0 <= k < i ==> #[trigger] out@[k]@ == words@[k]@,
            forall|k: int| 0 <= k < i ==> pattern_compiles(#[trigger] words@[k]@),
        decreases words@.len() - i,
    {
        match WordPattern::new(&words[i]) {
            Some(p) => out.push(p),
            None => {
                return Err(i);
            },
        }
        i += 1;
    }
    Ok(out)
}

} // verus!
