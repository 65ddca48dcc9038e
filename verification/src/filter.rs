//! The filter engine: a pure keep/drop decision for one entry.
//!
//! A rule set has three matchers: exact directory names, exact file
//! names, and glob patterns over the whole relative path. Three rule
//! sets act in order of strength: a force match keeps the entry whatever
//! else says; otherwise an exclude match drops it; otherwise the retain
//! set must admit it, where an empty retain category is a free pass and
//! a non-empty one requires a match.

use vstd::prelude::*;

use crate::paths::{ancestor_names_of, base_name_of, path_components, split_path};
use crate::pattern::{glob_accepts, glob_pattern_ok, GlobPattern, PatternFault};

verus! {

/// The mathematical content of a rule set: the three matcher lists, with
/// patterns given by their text.
pub struct RuleSetV {
    pub dirs: Seq<Seq<char>>,
    pub files: Seq<Seq<char>>,
    pub patterns: Seq<Seq<char>>,
}

/// One category of rules: directory names, file names and glob patterns.
pub struct RuleSet {
    pub dirs: Vec<String>,
    pub files: Vec<String>,
    pub patterns: Vec<GlobPattern>,
}

impl View for RuleSet {
    type V = RuleSetV;

    open spec fn view(&self) -> RuleSetV {
        RuleSetV {
            dirs: self.dirs.deep_view(),
            files: self.files.deep_view(),
            patterns: self.patterns.deep_view(),
        }
    }
}

/// The names an exact directory rule is matched against: every ancestor
/// directory name, and for a directory entry also its own name.
pub open spec fn dir_match_names(rel: Seq<char>, is_dir: bool) -> Seq<Seq<char>> {
    if is_dir {
        split_path(rel)
    } else {
        ancestor_names_of(rel)
    }
}

/// Some directory rule in `names` matches the entry.
pub open spec fn dir_rule_hit(rel: Seq<char>, is_dir: bool, names: Seq<Seq<char>>) -> bool {
    exists|i: int|
        0 <= i < dir_match_names(rel, is_dir).len() && names.contains(
            dir_match_names(rel, is_dir)[i],
        )
}

/// Some pattern in `patterns` matches the whole relative path.
pub open spec fn pattern_rule_hit(rel: Seq<char>, patterns: Seq<Seq<char>>) -> bool {
    exists|i: int| 0 <= i < patterns.len() && glob_accepts(patterns[i], rel)
}

/// The existential test: some rule of the set matches the entry. This is
/// how the exclude and force sets are read.
pub open spec fn rule_set_hits(rel: Seq<char>, is_dir: bool, r: RuleSetV) -> bool {
    ||| dir_rule_hit(rel, is_dir, r.dirs)
    ||| (!is_dir && r.files.contains(base_name_of(rel)))
    ||| pattern_rule_hit(rel, r.patterns)
}

/// The conjunctive test: every non-empty category of the set matches the
/// entry; an absent category is a free pass. This is how the retain set
/// is read. File-name rules do not constrain
/// directory entries.
pub open spec fn rule_set_admits(rel: Seq<char>, is_dir: bool, r: RuleSetV) -> bool {
    &&& (r.dirs.len() == 0 || dir_rule_hit(rel, is_dir, r.dirs))
    &&& (r.files.len() == 0 || is_dir || r.files.contains(base_name_of(rel)))
    &&& (r.patterns.len() == 0 || pattern_rule_hit(rel, r.patterns))
}

/// The filter decision: a force match wins, then exclusion, then the
/// retain requirement.
pub open spec fn keep_decision(
    rel: Seq<char>,
    is_dir: bool,
    exclude: RuleSetV,
    retain: RuleSetV,
    force: RuleSetV,
) -> bool {
    ||| rule_set_hits(rel, is_dir, force)
    ||| (!rule_set_hits(rel, is_dir, exclude) && rule_set_admits(rel, is_dir, retain))
}

impl RuleSet {
    /// Builds a rule set, compiling each pattern; the first ill-formed
    /// pattern is reported and no set is built.
    pub fn compile(dirs: Vec<String>, files: Vec<String>, patterns: &Vec<String>) -> (r: Result<
        RuleSet,
        PatternFault,
    >)
        ensures
            r is Ok <==> (forall|i: int|
                0 <= i < patterns.deep_view().len() ==> glob_pattern_ok(patterns.deep_view()[i])),
            r is Ok ==> r->Ok_0@ == (RuleSetV {
                dirs: dirs.deep_view(),
                files: files.deep_view(),
                patterns: patterns.deep_view(),
            }),
    {
        let mut compiled: Vec<GlobPattern> = Vec::new();
        let mut i: usize = 0;
        while i < patterns.len()
            invariant
                i <= patterns.len(),
                compiled.deep_view() == patterns.deep_view().take(i as int),
                forall|k: int| 0 <= k < i ==> glob_pattern_ok(patterns.deep_view()[k]),
            decreases patterns.len() - i,
        {
            let ghost pre = compiled@;
            let ghost pre_dv = compiled.deep_view();
            match GlobPattern::new(patterns[i].as_str()) {
                Ok(p) => {
                    compiled.push(p);
                    proof {
                        assert(patterns.deep_view().len() == patterns@.len());
                        assert(pre_dv.len() == pre.len());
                        assert(pre.len() == i);
                        assert(compiled.deep_view().len() == compiled@.len());
                        assert(p.deep_view() == patterns.deep_view()[i as int]);
                        assert(compiled@ == pre.push(p));
                        assert forall|k: int| 0 <= k < i + 1 implies compiled.deep_view()[k]
                            == patterns.deep_view().take(i + 1)[k] by {
                            assert(compiled.deep_view()[k] == compiled@[k].deep_view());
                            if k < i {
                                assert(compiled@[k] == pre[k]);
                                assert(pre_dv[k] == pre[k].deep_view());
                                assert(pre_dv[k] == patterns.deep_view()[k]);
                            } else {
                                assert(compiled@[k] == p);
                            }
                        }
                        assert(compiled.deep_view() =~= patterns.deep_view().take(i + 1));
                    }
                },
                Err(f) => {
                    proof {
                        assert(!glob_pattern_ok(patterns.deep_view()[i as int]));
                    }
                    return Err(f);
                },
            }
            i += 1;
        }
        proof {
            assert(patterns.deep_view().take(patterns.len() as int) =~= patterns.deep_view());
        }
        Ok(RuleSet { dirs, files, patterns: compiled })
    }

    /// An empty rule set: it hits nothing and admits everything.
    pub fn empty() -> (r: RuleSet)
        ensures
            r@.dirs.len() == 0,
            r@.files.len() == 0,
            r@.patterns.len() == 0,
    {
        RuleSet { dirs: Vec::new(), files: Vec::new(), patterns: Vec::new() }
    }
}

/// Whether `name` occurs in `list`.
pub(crate) fn name_in_list(name: &String, list: &Vec<String>) -> (r: bool)
    ensures
        r == list.deep_view().contains(name@),
{
    let mut j: usize = 0;
    while j < list.len()
        invariant
            j <= list.len(),
            forall|k: int| 0 <= k < j ==> list.deep_view()[k] != name@,
        decreases list.len() - j,
    {
        if *name == list[j] {
            proof {
                assert(list.deep_view()[j as int] == name@);
            }
            return true;
        }
        j += 1;
    }
    proof {
        assert(!list.deep_view().contains(name@));
    }
    false
}

/// Whether one of the first `n` components occurs in `list`.
fn any_component_in_list(comps: &Vec<String>, n: usize, list: &Vec<String>) -> (r: bool)
    requires
        n <= comps.len(),
    ensures
        r == exists|i: int| 0 <= i < n && list.deep_view().contains(comps.deep_view()[i]),
{
    let mut i: usize = 0;
    while i < n
        invariant
            i <= n <= comps.len(),
            forall|k: int| 0 <= k < i ==> !list.deep_view().contains(comps.deep_view()[k]),
        decreases n - i,
    {
        proof {
            assert(comps.deep_view()[i as int] == comps@[i as int]@);
        }
        if name_in_list(&comps[i], list) {
            return true;
        }
        i += 1;
    }
    false
}

/// Whether one of `patterns` matches `rel`.
fn any_pattern_matches(patterns: &Vec<GlobPattern>, rel: &str) -> (r: bool)
    ensures
        r == pattern_rule_hit(rel@, patterns.deep_view()),
{
    let mut i: usize = 0;
    while i < patterns.len()
        invariant
            i <= patterns.len(),
            forall|k: int| 0 <= k < i ==> !glob_accepts(patterns.deep_view()[k], rel@),
        decreases patterns.len() - i,
    {
        proof {
            assert(patterns.deep_view()[i as int] == patterns@[i as int]@);
        }
        if patterns[i].matches(rel) {
            return true;
        }
        i += 1;
    }
    false
}

/// Applies the existential rule-set test to an entry.
fn rule_set_test(comps: &Vec<String>, rel: &str, is_dir: bool, r: &RuleSet) -> (hit: bool)
    requires
        comps.deep_view() == split_path(rel@),
        comps.len() >= 1,
    ensures
        hit == rule_set_hits(rel@, is_dir, r@),
{
    let ncomp = comps.len();
    let dir_names = if is_dir {
        ncomp
    } else {
        ncomp - 1
    };
    proof {
        assert(forall|k: int|
            0 <= k < dir_names ==> dir_match_names(rel@, is_dir)[k] == comps.deep_view()[k]);
        assert(dir_match_names(rel@, is_dir).len() == dir_names);
    }
    if any_component_in_list(comps, dir_names, &r.dirs) {
        return true;
    }
    if !is_dir {
        proof {
            assert(base_name_of(rel@) == comps.deep_view()[ncomp - 1]);
        }
        if name_in_list(&comps[ncomp - 1], &r.files) {
            return true;
        }
    }
    any_pattern_matches(&r.patterns, rel)
}

/// The filter engine: decides whether the entry at relative path `rel`
/// takes part in the sync. The decision is a pure function of its
/// arguments.
pub fn keep_entry(rel: &str, is_dir: bool, exclude: &RuleSet, retain: &RuleSet, force: &RuleSet)
    -> (r: bool)
    ensures
        r == keep_decision(rel@, is_dir, exclude@, retain@, force@),
{
    let comps = path_components(rel);
    let ncomp = comps.len();

    if rule_set_test(&comps, rel, is_dir, force) {
        return true;
    }
    if rule_set_test(&comps, rel, is_dir, exclude) {
        return false;
    }

    let dir_names = if is_dir {
        ncomp
    } else {
        ncomp - 1
    };
    proof {
        assert(forall|k: int|
            0 <= k < dir_names ==> dir_match_names(rel@, is_dir)[k] == comps.deep_view()[k]);
        assert(dir_match_names(rel@, is_dir).len() == dir_names);
        assert(base_name_of(rel@) == comps.deep_view()[ncomp - 1]);
    }
    let dirs_ok = retain.dirs.len() == 0 || any_component_in_list(&comps, dir_names, &retain.dirs);
    let files_ok = retain.files.len() == 0 || is_dir || name_in_list(
        &comps[ncomp - 1],
        &retain.files,
    );
    let patterns_ok = retain.patterns.len() == 0 || any_pattern_matches(&retain.patterns, rel);
    dirs_ok && files_ok && patterns_ok
}

/// An entry below an excluded directory is dropped unless a force rule
/// matches it: one matching exclude-directory name settles the decision.
pub proof fn lemma_exclude_dir_drops(
    rel: Seq<char>,
    is_dir: bool,
    name: Seq<char>,
    exclude: RuleSetV,
    retain: RuleSetV,
    force: RuleSetV,
)
    requires
        exclude.dirs.contains(name),
        dir_match_names(rel, is_dir).contains(name),
        !rule_set_hits(rel, is_dir, force),
    ensures
        !keep_decision(rel, is_dir, exclude, retain, force),
{
    let i = choose|i: int|
        0 <= i < dir_match_names(rel, is_dir).len() && dir_match_names(rel, is_dir)[i] == name;
    assert(dir_rule_hit(rel, is_dir, exclude.dirs));
}

/// With file-name retain rules present, a file whose name matches none
/// of them is dropped unless a force rule matches it.
pub proof fn lemma_retain_files_drop(
    rel: Seq<char>,
    exclude: RuleSetV,
    retain: RuleSetV,
    force: RuleSetV,
)
    requires
        retain.files.len() > 0,
        !retain.files.contains(base_name_of(rel)),
        !rule_set_hits(rel, false, force),
    ensures
        !keep_decision(rel, false, exclude, retain, force),
{
}

/// A force match keeps the entry, whatever the exclude and retain sets
/// say.
pub proof fn lemma_force_overrides(
    rel: Seq<char>,
    is_dir: bool,
    exclude: RuleSetV,
    retain: RuleSetV,
    force: RuleSetV,
)
    requires
        rule_set_hits(rel, is_dir, force),
    ensures
        keep_decision(rel, is_dir, exclude, retain, force),
{
}

} // verus!
