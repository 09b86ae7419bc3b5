//! Regular expressions, compiled and matched by the `regex` crate.
use vstd::prelude::*;
use regex::Regex;

verus! {

#[verifier::external_type_specification]
#[verifier::external_body]
pub struct ExRegex(regex::Regex);

#[verifier::external_type_specification]
#[verifier::external_body]
pub struct ExRegexError(regex::Error);

/// Whether `regex::Regex::new` accepts `pattern`: the pattern is valid
/// syntax and the compiled program stays within the crate's default size
/// limit.
pub uninterp spec fn regex_compiles(pattern: Seq<char>) -> bool;

/// Whether the regex compiled from `pattern` finds a match anywhere in
/// `haystack` (`regex::Regex::is_match`).
pub uninterp spec fn regex_is_match(pattern: Seq<char>, haystack: Seq<char>) -> bool;

/// A regular expression together with the pattern text it was compiled
/// from. Values are only made by `compile`, so `regex` is always the
/// compilation of `source`.
pub(crate) struct CompiledPattern {
    source: String,
    regex: Regex,
}

impl CompiledPattern {
    /// The pattern text.
    pub(crate) closed spec fn source(&self) -> Seq<char> {
        self.source@
    }

    /// Compiles `source` with `regex::Regex::new`. The result is `Ok`
    /// exactly when the crate accepts the pattern, and then it carries
    /// `source` as its pattern text. Nothing is claimed of the error value.
    /// The PIN code pattern `^56\d{4}$` is valid syntax of the crate and
    /// far below its size limit, so it compiles.
    #[verifier::external_body]
    pub(crate) fn compile(source: &str) -> (r: Result<CompiledPattern, regex::Error>)
        ensures
            r is Ok <==> regex_compiles(source@),
            r matches Ok(p) ==> p.source() == source@,
            source@ == "^56\\d{4}$"@ ==> r is Ok,
    {
        match Regex::new(source) {
            Ok(regex) => Ok(CompiledPattern { source: source.to_string(), regex }),
            Err(e) => Err(e),
        }
    }

    /// `regex::Regex::is_match` on the compiled pattern: whether it matches
    /// anywhere in `haystack`. Of the PIN code pattern `^56\d{4}$` the
    /// crate's syntax gives: `^` and `$` anchor at the start and the end of
    /// the haystack, so a match needs the haystack to begin with `56`; and
    /// `\d` is a Unicode decimal digit, which on ASCII text is `0` to `9`,
    /// so an ASCII haystack matches exactly when it is `56` and four such
    /// digits.
    #[verifier::external_body]
    pub(crate) fn is_match(&self, haystack: &str) -> (r: bool)
        ensures
            r == regex_is_match(self.source(), haystack@),
            self.source() == "^56\\d{4}$"@ && r ==> haystack@.len() >= 2 && haystack@[0] == '5'
                && haystack@[1] == '6',
            self.source() == "^56\\d{4}$"@ && (forall|i: int|
                0 <= i < haystack@.len() ==> (haystack@[i] as u32) < 128) ==> (r <==> (
            haystack@.len() == 6 && haystack@[0] == '5' && haystack@[1] == '6' && (forall|i: int|
                2 <= i < 6 ==> '0' <= #[trigger] haystack@[i] <= '9'))),
    {
        self.regex.is_match(haystack)
    }
}

} // verus!
