//! Regular-expression filtering, backed by the `regex` crate.
//!
//! The regular-expression language itself is not restated here: whether a
//! pattern string compiles, and whether a compiled pattern matches a text,
//! are named results of the `regex` crate, fixed by the pattern and the
//! text alone. The rest of the crate reasons over those names.

use vstd::prelude::*;

verus! {

/// Whether `pattern` is a valid regular expression, as the `regex` crate
/// judges it: it compiles, within the crate's default size limit.
pub uninterp spec fn pattern_ok(pattern: Seq<char>) -> bool;

/// Whether the regular expression `pattern` matches anywhere in `text`
/// (an unanchored search over the whole text).
pub uninterp spec fn pattern_matches(pattern: Seq<char>, text: Seq<char>) -> bool;

#[verifier::external_type_specification]
#[verifier::external_body]
pub struct ExRegex(regex::Regex);

/// Relies on `regex::Regex::new`: compilation succeeds exactly when the
/// pattern is a valid expression within the default size limit, and the
/// outcome depends on the pattern string alone. A failure's description is
/// handed back as text.
#[verifier::external_body]
fn compile_regex(pattern: &str) -> (r: Result<regex::Regex, String>)
    ensures
        r is Ok <==> pattern_ok(pattern@),
{
    match regex::Regex::new(pattern) {
        Ok(re) => Ok(re),
        Err(e) => Err(e.to_string()),
    }
}

/// A compiled regular expression, kept beside the pattern text it was
/// compiled from. Its view is that pattern text. The fields are private:
/// every `Pattern` pairs a regex with exactly the text it came from.
pub struct Pattern {
    regex: regex::Regex,
    pattern: String,
}

impl View for Pattern {
    type V = Seq<char>;

    closed spec fn view(&self) -> Seq<char> {
        self.pattern@
    }
}

impl Pattern {
    /// Compiles a pattern string. Success depends on the pattern alone;
    /// an invalid pattern comes back as its parse error's description.
    pub fn compile(pattern: &str) -> (r: Result<Pattern, String>)
        ensures
            r is Ok <==> pattern_ok(pattern@),
            r matches Ok(p) ==> p@ == pattern@,
    {
        match compile_regex(pattern) {
            Ok(regex) => Ok(Pattern { regex, pattern: pattern.to_owned() }),
            Err(e) => Err(e),
        }
    }

    /// Relies on `regex::Regex::is_match`: whether there is a match for
    /// the expression anywhere in `text`, a function of the pattern and
    /// the text alone. The `regex` field was compiled from the `pattern`
    /// field, so the result is `pattern_matches` of this view.
    #[verifier::external_body]
    pub fn is_match(&self, text: &str) -> (r: bool)
        ensures
            r == pattern_matches(self@, text@),
    {
        self.regex.is_match(text)
    }
}

} // verus!
