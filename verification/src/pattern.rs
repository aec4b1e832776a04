//! Compiled regular expressions of the `regex` crate, and what the message
//! parsing asks of them: the capture groups of every match, and the first
//! replacement.
use vstd::prelude::*;

verus! {

#[verifier::external_type_specification]
#[verifier::external_body]
pub struct ExRegex(regex::Regex);

#[verifier::external_type_specification]
#[verifier::external_body]
pub struct ExRegexError(regex::Error);

/// Whether `regex::Regex::new` accepts `pattern`.
pub uninterp spec fn regex_compiles(pattern: Seq<char>) -> bool;

/// For each successive non-overlapping match of `pattern` in `text`, as
/// `regex::Regex::captures_iter` yields them, the text of every capture group
/// (group 0 being the whole match), or `None` for a group that took no part.
pub uninterp spec fn regex_captures(pattern: Seq<char>, text: Seq<char>) -> Seq<
    Seq<Option<Seq<char>>>,
>;

/// What `regex::Regex::replace` makes of `text`: its leftmost-first match of
/// `pattern` replaced by `rep`, with `$name` expanded to the named group.
pub uninterp spec fn regex_replaced(pattern: Seq<char>, text: Seq<char>, rep: Seq<char>) -> Seq<
    char,
>;

/// A regular expression compiled from the pattern that its view gives.
pub struct Pattern {
    re: regex::Regex,
    source: Ghost<Seq<char>>,
}

impl View for Pattern {
    type V = Seq<char>;

    closed spec fn view(&self) -> Seq<char> {
        self.source@
    }
}

/// `regex::Regex::new`. Claimed: it succeeds exactly where `regex_compiles`
/// holds of the pattern, and the compiled expression is that of `pattern`.
#[verifier::external_body]
pub(crate) fn compile(pattern: &str) -> (res: Result<Pattern, regex::Error>)
    ensures
        res is Ok <==> regex_compiles(pattern@),
        res matches Ok(p) ==> p@ == pattern@,
{
    match regex::Regex::new(pattern) {
        Ok(re) => Ok(Pattern { re, source: Ghost(pattern@) }),
        Err(e) => Err(e),
    }
}

/// `regex::Regex::captures_iter`, each group read with `Captures::iter`.
/// Claimed: the groups of every match, in order, are `regex_captures` of the
/// pattern and the text.
#[verifier::external_body]
pub(crate) fn captures_all(re: &Pattern, text: &str) -> (res: Vec<Vec<Option<String>>>)
    ensures
        res.deep_view() == regex_captures(re@, text@),
{
    re.re.captures_iter(text).map(
        |c| c.iter().map(|m| m.map(|m| m.as_str().to_string())).collect(),
    ).collect()
}

/// `regex::Regex::replace`. Claimed: the result is `regex_replaced` of the
/// pattern, the text and the replacement.
#[verifier::external_body]
pub(crate) fn replace_first(re: &Pattern, text: &str, rep: &str) -> (res: String)
    ensures
        res@ == regex_replaced(re@, text@, rep@),
{
    re.re.replace(text, rep).into_owned()
}

} // verus!
