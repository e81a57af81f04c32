//! A compiled regular-expression mask over full paths.
//!
//! Compilation and matching live in the `regex` crate; both are functions of
//! the pattern and the text alone, so their results are named by uninterpreted
//! spec functions. A mask always carries the pattern it was compiled from, and
//! the only constructor pairs the two, so matching is keyed by the pattern.

use vstd::prelude::*;
use vstd::string::StringExecFns;

verus! {

#[verifier::external_type_specification]
#[verifier::external_body]
pub struct ExRegex(regex::Regex);

/// Whether `pattern` is a valid regular expression, that is, whether compiling
/// it succeeds.
pub uninterp spec fn pattern_ok(pattern: Seq<char>) -> bool;

/// Whether the regular expression compiled from `pattern` matches somewhere in
/// `text`.
pub uninterp spec fn mask_matches(pattern: Seq<char>, text: Seq<char>) -> bool;

/// Relies on `regex::Regex::new`: compilation succeeds exactly on valid
/// patterns (within the default size limit) and is a function of the pattern
/// alone.
#[verifier::external_body]
fn compile_regex(pattern: &str) -> (r: Option<regex::Regex>)
    ensures
        r is Some <==> pattern_ok(pattern@),
{
    regex::Regex::new(pattern).ok()
}

/// A path mask: a regular expression together with the pattern it was
/// compiled from.
pub struct PathMask {
    pattern: String,
    re: regex::Regex,
}

impl PathMask {
    /// The pattern this mask was compiled from, for contracts.
    pub closed spec fn pattern_view(&self) -> Seq<char> {
        self.pattern@
    }

    /// Compiles a mask from a pattern; `None` exactly on invalid patterns.
    pub fn new(pattern: &str) -> (r: Option<PathMask>)
        ensures
            r is Some <==> pattern_ok(pattern@),
            r is Some ==> r->0.pattern_view() == pattern@,
    {
        match compile_regex(pattern) {
            Some(re) => Some(PathMask { pattern: String::from_str(pattern), re }),
            None => None,
        }
    }

    /// The pattern this mask was compiled from.
    pub fn pattern(&self) -> (r: &String)
        ensures
            r@ == self.pattern_view(),
    {
        &self.pattern
    }

    /// Relies on `regex::Regex::is_match`: matching is a function of the
    /// compiled pattern and the text alone, and this mask's expression is the
    /// one compiled from its pattern.
    #[verifier::external_body]
    pub fn is_match(&self, text: &str) -> (r: bool)
        ensures
            r == mask_matches(self.pattern_view(), text@),
    {
        self.re.is_match(text)
    }
}

} // verus!
