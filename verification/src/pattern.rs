//! Calls into the `regex` crate, from pattern and text strings to strings.
//!
//! A compiled regex is never held: each call compiles its pattern, so the
//! library's own value for a regex is its pattern text.
use vstd::prelude::*;
use crate::text::has_substring;

verus! {

/// Whether `regex::Regex::new` accepts the pattern.
pub uninterp spec fn regex_valid(pattern: Seq<char>) -> bool;

/// The texts of the successive matches that `regex::Regex::find_iter` yields.
pub uninterp spec fn regex_matches(pattern: Seq<char>, text: Seq<char>) -> Seq<Seq<char>>;

/// The text that `regex::Regex::replace_all` returns.
pub uninterp spec fn regex_replace_all(pattern: Seq<char>, text: Seq<char>, rep: Seq<char>) -> Seq<
    char,
>;

/// The pieces that `regex::Regex::split` yields.
pub uninterp spec fn regex_split(pattern: Seq<char>, text: Seq<char>) -> Seq<Seq<char>>;

/// The characters that `regex::escape` prefixes with a backslash.
pub open spec fn is_meta_character(c: char) -> bool {
    c == '\\' || c == '.' || c == '+' || c == '*' || c == '?' || c == '(' || c == ')' || c == '|'
        || c == '[' || c == ']' || c == '{' || c == '}' || c == '^' || c == '$' || c == '#' || c
        == '&' || c == '-' || c == '~'
}

/// `text` with every meta character preceded by a backslash.
pub open spec fn escaped(text: Seq<char>) -> Seq<char>
    decreases text.len(),
{
    if text.len() == 0 {
        seq![]
    } else {
        escaped(text.drop_last()) + if is_meta_character(text.last()) {
            seq!['\\', text.last()]
        } else {
            seq![text.last()]
        }
    }
}

/// The character views of a sequence of strings.
pub open spec fn string_views(v: Seq<String>) -> Seq<Seq<char>> {
    v.map_values(|s: String| s@)
}

/// Calls `regex::escape`, which copies `text` and puts a backslash before each
/// of the characters listed in `is_meta_character`.
#[verifier::external_body]
pub(crate) fn escape(text: &str) -> (r: String)
    ensures
        r@ == escaped(text@),
{
    regex::escape(text)
}

/// Calls `regex::Regex::new` and reports whether it succeeded (named
/// `regex_valid`). The patterns `\s+`, `\S+` and the empty pattern are valid
/// regex syntax, which the contract states; of other patterns it says nothing.
#[verifier::external_body]
pub(crate) fn is_valid_regex(pattern: &str) -> (b: bool)
    ensures
        b == regex_valid(pattern@),
        pattern@ == "\\s+"@ ==> b,
        pattern@ == "\\S+"@ ==> b,
        pattern@.len() == 0 ==> b,
{
    regex::Regex::new(pattern).is_ok()
}

/// Compiles `pattern` with `regex::Regex::new` and collects the text of each
/// match of `regex::Regex::find_iter` on `text` (named `regex_matches`); each
/// match is a substring of `text` (`Match::as_str`).
#[verifier::external_body]
pub(crate) fn find_all(pattern: &str, text: &str) -> (r: Vec<String>)
    requires
        regex_valid(pattern@),
    ensures
        string_views(r@) == regex_matches(pattern@, text@),
        forall|i: int| 0 <= i < r@.len() ==> has_substring(text@, #[trigger] r@[i]@),
{
    let re = regex::Regex::new(pattern).unwrap();
    re.find_iter(text).map(|m| m.as_str().to_string()).collect()
}

/// Compiles `pattern` with `regex::Regex::new` and returns what
/// `regex::Regex::replace_all` makes of `text` (named `regex_replace_all`).
/// Two cases with an empty replacement are stated as well. A bracketed class
/// `[..]+` of characters escaped by `regex::escape` matches the maximal runs
/// of exactly those characters (an escaped meta character is a literal inside
/// a class too), and `replace_all` replaces every non-overlapping match, so
/// replacing with nothing drops exactly those characters. The empty pattern
/// matches only empty strings, so replacing its matches with nothing leaves
/// the text as it is.
#[verifier::external_body]
pub(crate) fn replace_all(pattern: &str, text: &str, rep: &str) -> (r: String)
    requires
        regex_valid(pattern@),
    ensures
        r@ == regex_replace_all(pattern@, text@, rep@),
        forall|cs: Seq<char>|
            cs.len() > 0 && pattern@ == "["@ + #[trigger] escaped(cs) + "]+"@ && rep@.len() == 0
                ==> r@ == text@.filter(|c: char| !cs.contains(c)),
        pattern@.len() == 0 && rep@.len() == 0 ==> r@ == text@,
{
    let re = regex::Regex::new(pattern).unwrap();
    re.replace_all(text, rep).into_owned()
}

/// Compiles `pattern` with `regex::Regex::new` and collects the pieces of
/// `regex::Regex::split` on `text` (named `regex_split`).
#[verifier::external_body]
pub(crate) fn split(pattern: &str, text: &str) -> (r: Vec<String>)
    requires
        regex_valid(pattern@),
    ensures
        string_views(r@) == regex_split(pattern@, text@),
{
    let re = regex::Regex::new(pattern).unwrap();
    re.split(text).map(|p| p.to_string()).collect()
}

} // verus!
