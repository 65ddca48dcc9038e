//! Compiled glob patterns.
//!
//! Rule patterns use Unix-shell style globs (`*`, `**`, `?`, `[...]`),
//! matched against a whole relative path. Compilation and matching are
//! done by the `glob` crate; what a pattern accepts is named by the
//! uninterpreted functions below, so contracts can speak about it without
//! restating the glob grammar.

use vstd::prelude::*;

verus! {

/// Whether `pattern` is a well-formed glob pattern, as `glob::Pattern::new`
/// decides it. The answer depends on the pattern text alone.
pub uninterp spec fn glob_pattern_ok(pattern: Seq<char>) -> bool;

/// Whether the glob `pattern` matches `path` under the default match
/// options. The answer depends on the pattern text and the path alone.
pub uninterp spec fn glob_accepts(pattern: Seq<char>, path: Seq<char>) -> bool;

/// An ill-formed glob pattern, with the position and message that the
/// pattern compiler reported.
#[derive(Clone, PartialEq, Eq, Debug)]
pub struct PatternFault {
    pub pos: usize,
    pub msg: String,
}

/// A glob pattern together with the text it was compiled from. The fields
/// are private: only `GlobPattern::new` builds one, so the compiled form
/// always belongs to the text that the view reports.
pub struct GlobPattern {
    text: String,
    compiled: glob::Pattern,
}

#[verifier::external_type_specification]
#[verifier::external_body]
pub struct ExGlobPattern(glob::Pattern);

impl View for GlobPattern {
    type V = Seq<char>;

    closed spec fn view(&self) -> Seq<char> {
        self.text@
    }
}

impl DeepView for GlobPattern {
    type V = Seq<char>;

    open spec fn deep_view(&self) -> Seq<char> {
        self.view()
    }
}

impl GlobPattern {
    /// Relies on `glob::Pattern::new`: it compiles a well-formed pattern
    /// and reports a fault otherwise, deciding by the pattern text alone.
    #[verifier::external_body]
    pub(crate) fn new(text: &str) -> (r: Result<GlobPattern, PatternFault>)
        ensures
            r is Ok <==> glob_pattern_ok(text@),
            r is Ok ==> r->Ok_0@ == text@,
    {
        match glob::Pattern::new(text) {
            Ok(compiled) => Ok(GlobPattern { text: text.to_owned(), compiled }),
            Err(e) => Err(PatternFault { pos: e.pos, msg: e.msg.to_owned() }),
        }
    }

    /// Relies on `glob::Pattern::matches`: whether the pattern matches
    /// depends on the pattern text and the candidate path alone.
    #[verifier::external_body]
    pub(crate) fn matches(&self, path: &str) -> (r: bool)
        ensures
            r == glob_accepts(self@, path@),
    {
        self.compiled.matches(path)
    }
}

} // verus!
