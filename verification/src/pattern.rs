//! Regular expressions that select which files enter the knowledge base.
use vstd::prelude::*;

verus! {

#[verifier::external_type_specification]
#[verifier::external_body]
pub struct ExRegex(regex::Regex);

/// Whether `regex::Regex::new` accepts `pattern`: it is valid syntax and its
/// compiled form stays under the crate's default size limit.
pub uninterp spec fn regex_compiles(pattern: Seq<char>) -> bool;

/// Whether the regex compiled from `pattern` matches anywhere in `haystack`
/// (`regex::Regex::is_match`).
pub uninterp spec fn regex_is_match(pattern: Seq<char>, haystack: Seq<char>) -> bool;

/// A compiled regular expression together with the pattern it came from.
///
/// Its fields are private: the only way to build one is `compile`, which
/// stores in `compiled` the regex that the regex engine built from `source`.
pub struct Pattern {
    source: String,
    compiled: regex::Regex,
}

impl View for Pattern {
    type V = Seq<char>;

    /// A pattern is seen as its source text.
    closed spec fn view(&self) -> Seq<char> {
        self.source@
    }
}

/// Calls `regex::Regex::is_match` on the regex that `compile` built from the
/// pattern's source. Claims: the answer is `regex_is_match` of that
/// source and the haystack.
#[verifier::external_body]
fn compiled_is_match(p: &Pattern, haystack: &str) -> (b: bool)
    ensures
        b == regex_is_match(p@, haystack@),
{
    p.compiled.is_match(haystack)
}

/// A pattern that the regex engine refused.
pub struct PatternError {
    pub pattern: String,
}

/// Calls `regex::Regex::new` on `pattern` and keeps the pattern's text with
/// the regex it built. Claims: it succeeds exactly on the patterns for which
/// `regex_compiles` holds, a property of the pattern alone; on success the
/// result's source is `pattern`, and on failure the error names `pattern`.
#[verifier::external_body]
fn compile(pattern: &str) -> (r: Result<Pattern, PatternError>)
    ensures
        r is Ok <==> regex_compiles(pattern@),
        r matches Ok(p) ==> p@ == pattern@,
        r matches Err(e) ==> e.pattern@ == pattern@,
{
    match regex::Regex::new(pattern) {
        Ok(compiled) => Ok(Pattern { source: pattern.to_owned(), compiled }),
        Err(_) => Err(PatternError { pattern: pattern.to_owned() }),
    }
}

impl Pattern {
    /// Compiles `source`; fails exactly when the regex engine refuses it.
    pub fn new(source: &str) -> (r: Result<Pattern, PatternError>)
        ensures
            r is Ok <==> regex_compiles(source@),
            r matches Ok(p) ==> p@ == source@,
            r matches Err(e) ==> e.pattern@ == source@,
    {
        compile(source)
    }

    /// The source text of the pattern.
    pub fn as_str(&self) -> (s: &str)
        ensures
            s@ == self@,
    {
        self.source.as_str()
    }

    /// Whether the pattern matches anywhere in `haystack`.
    pub fn is_match(&self, haystack: &str) -> (b: bool)
        ensures
            b == regex_is_match(self@, haystack@),
    {
        compiled_is_match(self, haystack)
    }
}

} // verus!
