//! Regular expressions of the `regex` crate: compiling a pattern and
//! replacing its first match. Nothing about them is proved here: the
//! contracts below name what the engine returns.

use vstd::prelude::*;

verus! {

/// A compiled pattern; opaque.
#[verifier::external_type_specification]
#[verifier::external_body]
pub struct ExRegex(regex::Regex);

/// The reason for which a pattern was refused; opaque.
#[verifier::external_type_specification]
#[verifier::external_body]
pub struct ExRegexError(regex::Error);

/// Whether `regex::Regex::new` accepts `pattern`.
pub uninterp spec fn compiles(pattern: Seq<char>) -> bool;

/// The pattern from which `re` was compiled, as `regex::Regex::as_str` returns it.
pub uninterp spec fn source_of(re: regex::Regex) -> Seq<char>;

/// What `regex::Regex::replace` returns for the regular expression compiled
/// from `pattern`, the haystack `text` and the replacement string `rep`: `text`
/// with its leftmost-first match replaced by the expansion of `rep`, or `text`
/// itself where nothing matches.
pub uninterp spec fn replaced_first(pattern: Seq<char>, text: Seq<char>, rep: Seq<char>) -> Seq<
    char,
>;

/// `regex::Regex::new`: compiles `pattern`. Whether it succeeds depends on the
/// pattern alone, and the compiled value remembers the pattern.
#[verifier::external_body]
pub(crate) fn compile(pattern: &str) -> (r: Result<regex::Regex, regex::Error>)
    ensures
        r is Ok == compiles(pattern@),
        r matches Ok(re) ==> source_of(re) == pattern@,
{
    regex::Regex::new(pattern)
}

/// `regex::Regex::replace` with a replacement string: the result is the one
/// that `replaced_first` names for the pattern of `re`.
#[verifier::external_body]
pub(crate) fn replace_first(re: &regex::Regex, text: &str, rep: &str) -> (out: String)
    ensures
        out@ == replaced_first(source_of(*re), text@, rep@),
{
    re.replace(text, rep).into_owned()
}

/// `line` with the first match of `re` replaced by the expansion of `rep`.
pub(crate) fn rewrite(re: &regex::Regex, line: &[char], rep: &[char]) -> (out: Vec<char>)
    ensures
        out@ == replaced_first(source_of(*re), line@, rep@),
{
    let text = crate::text::to_text(line);
    let with = crate::text::to_text(rep);
    let replaced = replace_first(re, text.as_str(), with.as_str());
    crate::text::to_chars(replaced.as_str())
}

} // verus!
