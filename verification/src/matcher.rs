//! Regular-expression line search over byte buffers, through ripgrep's
//! `grep` crates (`grep-regex` for the matcher, `grep-searcher` for the
//! line-oriented search).

use vstd::prelude::*;
use grep::regex::{RegexMatcher, RegexMatcherBuilder};
use grep::searcher::{sinks::UTF8, SearcherBuilder};

verus! {

#[verifier::external_type_specification]
#[verifier::external_body]
pub struct ExRegexMatcher(RegexMatcher);

/// What `RegexMatcherBuilder::build`, with case folding as given, says of
/// the pattern: nothing when it accepts it, else the message of its error.
pub uninterp spec fn regex_refusal(pattern: Seq<char>, ignore_case: bool) -> Option<Seq<char>>;

/// What `Searcher::search_slice`, with the default searcher and a `UTF8`
/// sink that keeps every match, reports for this pattern over these bytes:
/// the (one-based) number and the text of each matching line, line
/// terminator included, in order, up to the first matching line that is
/// not valid UTF-8.
pub uninterp spec fn matching_lines(pattern: Seq<char>, ignore_case: bool, content: Seq<u8>) -> Seq<(usize, Seq<char>)>;

/// A compiled regular expression, with the pattern and case folding it was
/// compiled from. Only `compile_regex` makes one.
pub struct LineMatcher {
    pattern: String,
    ignore_case: bool,
    matcher: RegexMatcher,
}

impl LineMatcher {
    /// The pattern this matcher was compiled from.
    pub closed spec fn pattern(&self) -> Seq<char> {
        self.pattern@
    }

    /// Whether this matcher folds case.
    pub closed spec fn ignore_case(&self) -> bool {
        self.ignore_case
    }
}

/// `RegexMatcherBuilder::new().case_insensitive(..).build(..)`: compiles the
/// pattern. It succeeds exactly when the builder accepts the pattern; a
/// refusal comes back as the error's message.
#[verifier::external_body]
pub(crate) fn compile_regex(pattern: &str, ignore_case: bool) -> (r: Result<LineMatcher, String>)
    ensures
        r is Ok <==> regex_refusal(pattern@, ignore_case) is None,
        r matches Ok(m) ==> m.pattern() == pattern@ && m.ignore_case() == ignore_case,
        r matches Err(e) ==> regex_refusal(pattern@, ignore_case) == Some(e@),
{
    match RegexMatcherBuilder::new().case_insensitive(ignore_case).build(pattern) {
        Ok(matcher) => Ok(LineMatcher { pattern: pattern.to_string(), ignore_case, matcher }),
        Err(e) => Err(e.to_string()),
    }
}

/// One matching line: its (one-based) number and its text.
pub struct LineHit {
    pub line: usize,
    pub text: String,
}

impl View for LineHit {
    type V = (usize, Seq<char>);

    open spec fn view(&self) -> (usize, Seq<char>) {
        (self.line, self.text@)
    }
}

/// `Searcher::search_slice` with a default searcher and a `UTF8` sink that
/// keeps every match: the matching lines of the buffer, in order. The
/// default searcher counts lines from 1 and reports each matching line once,
/// going forward through the buffer, so the line numbers rise strictly.
#[verifier::external_body]
pub(crate) fn search_bytes(matcher: &LineMatcher, content: &[u8]) -> (r: Vec<LineHit>)
    ensures
        r@.map_values(|h: LineHit| h@) == matching_lines(matcher.pattern(), matcher.ignore_case(), content@),
        forall|i: int| 0 <= i < r@.len() ==> 1 <= #[trigger] r@[i].line,
        forall|i: int, j: int| 0 <= i < j < r@.len() ==> #[trigger] r@[i].line < #[trigger] r@[j].line,
{
    let mut hits: Vec<LineHit> = Vec::new();
    let mut searcher = SearcherBuilder::new().build();
    let _ = searcher.search_slice(
        &matcher.matcher,
        content,
        UTF8(|lnum, line| {
            hits.push(LineHit { line: lnum as usize, text: line.to_string() });
            Ok(true)
        }),
    );
    hits
}

} // verus!
