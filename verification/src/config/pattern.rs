//! Compiled regular expressions.
//!
//! Matching and substitution are done by the `regex` crate. What it computes
//! is named here by three uninterpreted functions of the pattern's source
//! text, so that the routing rules can be stated exactly in terms of them.

use regex::Regex;
use vstd::prelude::*;

use crate::config::error::ConfigError;

verus! {

/// `regex::Regex`, a compiled regular expression. It is carried around as
/// it is; nothing inside it is looked at.
#[verifier::external_type_specification]
#[verifier::external_body]
pub struct ExRegex(regex::Regex);

/// `regex::Error`, the reason for which a pattern was refused. Only its
/// text is used.
#[verifier::external_type_specification]
#[verifier::external_body]
pub struct ExRegexError(regex::Error);

/// `Regex::clone` returns another handle on the same compiled regex. Nothing
/// is claimed of it here.
pub assume_specification[ <regex::Regex as Clone>::clone ](re: &regex::Regex) -> regex::Regex;

/// Whether `Regex::new` accepts `pattern`.
pub uninterp spec fn regex_compiles(pattern: Seq<char>) -> bool;

/// Whether the regex compiled from `pattern` matches somewhere in `text`.
pub uninterp spec fn regex_matches(pattern: Seq<char>, text: Seq<char>) -> bool;

/// The result of replacing, in `text`, every non-overlapping match of the
/// regex compiled from `pattern` by the expansion of `replacement`.
pub uninterp spec fn regex_replaced(
    pattern: Seq<char>,
    text: Seq<char>,
    replacement: Seq<char>,
) -> Seq<char>;

/// A regular expression together with the text it was compiled from.
///
/// The only way to make one is [`Pattern::new`], so `compiled` is always the
/// regex that `Regex::new` built from `source`.
#[derive(Clone, Debug)]
pub struct Pattern {
    source: String,
    compiled: Regex,
}

impl View for Pattern {
    type V = Seq<char>;

    closed spec fn view(&self) -> Seq<char> {
        self.source@
    }
}

/// Calls `Regex::new`. It succeeds exactly on the patterns that the engine
/// accepts, and the regex it returns reports the given text as its source.
#[verifier::external_body]
fn compile(source: &str) -> (r: Result<Pattern, regex::Error>)
    ensures
        r is Ok <==> regex_compiles(source@),
        r matches Ok(p) ==> p@ == source@,
{
    match Regex::new(source) {
        Ok(compiled) => Ok(Pattern { source: source.to_string(), compiled }),
        Err(e) => Err(e),
    }
}

/// The `Display` text of a `regex::Error`.
#[verifier::external_body]
fn error_text(e: &regex::Error) -> String {
    e.to_string()
}

impl Pattern {
    /// Compiles `source`. A pattern that the engine refuses is reported with
    /// the engine's explanation and the configuration file `path`.
    pub fn new(source: &str, path: &str) -> (r: Result<Pattern, ConfigError>)
        ensures
            r is Ok <==> regex_compiles(source@),
            r matches Ok(p) ==> p@ == source@,
            r matches Err(e) ==> e is BadPattern && e.path_text() == path@,
    {
        match compile(source) {
            Ok(p) => Ok(p),
            Err(e) => Err(
                ConfigError::BadPattern { path: path.to_owned(), detail: error_text(&e) },
            ),
        }
    }

    /// The text this pattern was compiled from.
    pub fn as_str(&self) -> (r: &str)
        ensures
            r@ == self@,
    {
        self.source.as_str()
    }

    /// Calls `Regex::is_match`: whether the pattern matches anywhere in
    /// `text` (a search, not anchored).
    #[verifier::external_body]
    pub(crate) fn is_match(&self, text: &str) -> (r: bool)
        ensures
            r == regex_matches(self@, text@),
    {
        self.compiled.is_match(text)
    }

    /// Calls `Regex::replace_all` with a replacement template, in which
    /// `$1`, `${name}` and the like stand for capture groups.
    #[verifier::external_body]
    pub(crate) fn replace_all(&self, text: &str, replacement: &str) -> (r: String)
        ensures
            r@ == regex_replaced(self@, text@, replacement@),
    {
        self.compiled.replace_all(text, replacement).into_owned()
    }
}

} // verus!
