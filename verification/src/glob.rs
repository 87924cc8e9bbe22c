//! Path filtering by a glob pattern, through the `globset` crate.

use vstd::prelude::*;
use globset::{Glob, GlobSet};

verus! {

#[verifier::external_type_specification]
#[verifier::external_body]
pub struct ExGlob(Glob);

#[verifier::external_type_specification]
#[verifier::external_body]
pub struct ExGlobSet(GlobSet);

/// What `Glob::new` says of the pattern: nothing when it accepts it, else
/// the message of its error.
pub uninterp spec fn glob_refusal(pattern: Seq<char>) -> Option<Seq<char>>;

/// What `GlobSet::new` says when building the set of the one glob of this
/// pattern: nothing when it builds it, else the message of its error.
pub uninterp spec fn glob_set_refusal(pattern: Seq<char>) -> Option<Seq<char>>;

/// Whether `GlobSet::is_match`, on the set of the one glob of this pattern,
/// matches the path.
pub uninterp spec fn glob_matches(pattern: Seq<char>, path: Seq<char>) -> bool;

/// A parsed glob, with the pattern it was parsed from. Only `parse_glob`
/// makes one.
pub struct ParsedGlob {
    pattern: String,
    glob: Glob,
}

impl ParsedGlob {
    /// The pattern this glob was parsed from.
    pub closed spec fn pattern(&self) -> Seq<char> {
        self.pattern@
    }
}

/// `Glob::new`: parses the pattern with default options. It succeeds exactly
/// when the pattern is a valid glob; a refusal comes back as its message.
#[verifier::external_body]
pub(crate) fn parse_glob(pattern: &str) -> (r: Result<ParsedGlob, String>)
    ensures
        r is Ok <==> glob_refusal(pattern@) is None,
        r matches Ok(g) ==> g.pattern() == pattern@,
        r matches Err(e) ==> glob_refusal(pattern@) == Some(e@),
{
    match Glob::new(pattern) {
        Ok(glob) => Ok(ParsedGlob { pattern: pattern.to_string(), glob }),
        Err(e) => Err(e.to_string()),
    }
}

/// A set made of one glob, with the pattern of that glob. Only
/// `glob_set_of` makes one.
pub struct GlobFilter {
    pattern: String,
    set: GlobSet,
}

impl GlobFilter {
    /// The pattern of the glob in this set.
    pub closed spec fn pattern(&self) -> Seq<char> {
        self.pattern@
    }

    /// `GlobSet::is_match`: whether the set matches the path.
    #[verifier::external_body]
    pub(crate) fn is_match(&self, path: &str) -> (r: bool)
        ensures
            r == glob_matches(self.pattern(), path@),
    {
        self.set.is_match(path)
    }
}

/// `GlobSet::new` on the one glob (what `GlobSetBuilder::build` does after a
/// single `add`): builds the matching set. A refusal comes back as its message.
#[verifier::external_body]
pub(crate) fn glob_set_of(glob: ParsedGlob) -> (r: Result<GlobFilter, String>)
    ensures
        r is Ok <==> glob_set_refusal(glob.pattern()) is None,
        r matches Ok(f) ==> f.pattern() == glob.pattern(),
        r matches Err(e) ==> glob_set_refusal(glob.pattern()) == Some(e@),
{
    match GlobSet::new([glob.glob]) {
        Ok(set) => Ok(GlobFilter { pattern: glob.pattern, set }),
        Err(e) => Err(e.to_string()),
    }
}

} // verus!
