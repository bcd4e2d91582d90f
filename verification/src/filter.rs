//! The path filter: an optional regular-expression predicate over resolved
//! paths, case-insensitive unless the pattern itself says otherwise.

use vstd::prelude::*;
use vstd::string::StringExecFns;

use crate::strutil::{contains_sub, contains_sub_exec};

verus! {

/// A pattern the caller supplied does not compile as a regular expression;
/// surfaced at filter construction, before any chunk work starts.
#[derive(Debug)]
pub struct InvalidPatternError {
    /// The effective pattern that failed to compile.
    pub pattern: String,
}

/// Whether the engine accepts a pattern as a regular expression; a function
/// of the pattern alone.
pub uninterp spec fn pattern_is_valid(pattern: Seq<char>) -> bool;

/// Whether a compiled pattern matches somewhere in a text; a function of
/// pattern and text alone.  A match attempt that the engine gives up on
/// counts as no match.
pub uninterp spec fn pattern_admits(pattern: Seq<char>, text: Seq<char>) -> bool;

/// Relies on `fancy_regex`'s `Regex::new` and `Regex::is_match`: whether the
/// pattern compiles, and whether it then matches a text, depend on the
/// pattern and the text alone; `is_match` errors (the backtracking limit)
/// are taken as no match.
#[verifier::external_body]
fn regex_try_match(pattern: &str, text: &str) -> (r: Option<bool>)
    ensures
        r is Some <==> pattern_is_valid(pattern@),
        r is Some ==> r.unwrap() == pattern_admits(pattern@, text@),
{
    match fancy_regex::Regex::new(pattern) {
        Ok(re) => Some(re.is_match(text).unwrap_or(false)),
        Err(_) => None,
    }
}

/// The pattern actually compiled: case-insensitive by default, unless the
/// caller's pattern carries an inline case flag of its own.
pub open spec fn effective_pattern(p: Seq<char>) -> Seq<char> {
    if contains_sub(p, "(?i)"@, false) || contains_sub(p, "(?-i)"@, false) {
        p
    } else {
        "(?i)"@ + p
    }
}

/// The path filter a listing or extraction runs under; without a pattern it
/// admits every path.
pub struct PathFilter {
    pattern: Option<String>,
}

impl PathFilter {
    /// The effective pattern this filter matches with, if any.
    pub closed spec fn model(self) -> Option<Seq<char>> {
        match self.pattern {
            Some(p) => Some(p@),
            None => None,
        }
    }

    #[verifier::type_invariant]
    spec fn wf(self) -> bool {
        self.pattern is Some ==> pattern_is_valid(self.pattern.unwrap()@)
    }

    /// Whether this filter admits the given resolved path.
    pub fn matches(&self, text: &str) -> (r: bool)
        ensures
            r == match self.model() {
                None => true,
                Some(p) => pattern_admits(p, text@),
            },
    {
        proof {
            use_type_invariant(self);
        }
        if self.pattern.is_some() {
            let p = self.pattern.as_ref().unwrap();
            match regex_try_match(p.as_str(), text) {
                Some(b) => b,
                None => {
                    proof {
                        assert(false);
                    }
                    false
                },
            }
        } else {
            true
        }
    }
}

/// Builds the path filter from an optional pattern.  Without a pattern the
/// filter admits everything.  With one, the effective pattern (made
/// case-insensitive unless an inline flag says otherwise) must compile;
/// otherwise construction fails fast, before any chunk work.
pub fn create_filter_pattern(pattern: Option<String>) -> (r: Result<
    PathFilter,
    InvalidPatternError,
>)
    ensures
        match r {
            Ok(f) => match pattern {
                None => f.model() is None,
                Some(p) => {
                    &&& f.model() == Some(effective_pattern(p@))
                    &&& pattern_is_valid(effective_pattern(p@))
                },
            },
            Err(e) => {
                &&& pattern is Some
                &&& !pattern_is_valid(effective_pattern(pattern.unwrap()@))
                &&& e.pattern@ == effective_pattern(pattern.unwrap()@)
            },
        },
{
    match pattern {
        None => Ok(PathFilter { pattern: None }),
        Some(p) => {
            let has_flag = contains_sub_exec(p.as_str(), "(?i)", false) || contains_sub_exec(
                p.as_str(),
                "(?-i)",
                false,
            );
            let eff: String = if has_flag {
                p
            } else {
                let mut s = String::from_str("(?i)");
                s.append(p.as_str());
                s
            };
            match regex_try_match(eff.as_str(), "") {
                Some(_) => Ok(PathFilter { pattern: Some(eff) }),
                None => Err(InvalidPatternError { pattern: eff }),
            }
        },
    }
}

} // verus!
