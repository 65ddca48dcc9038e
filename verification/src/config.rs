//! Operation configuration: command-line shaped arguments, the batch
//! configuration, and the merging of rule lists.
//!
//! Rule lists from different places (command line, batch-global,
//! per-operation) are merged into one sorted, duplicate-free list
//! before a run. The configuration is validated and turned into a
//! `SyncOperation` before any filesystem work begins; an ill-formed
//! glob pattern is reported instead.

use vstd::prelude::*;

use crate::filter::RuleSet;
use crate::pattern::{glob_pattern_ok, GlobPattern, PatternFault};
use crate::scanner::{SyncOperation, SyncOperationV};
use crate::util::{lemma_lex_le_antisym, lemma_lex_le_total, lemma_lex_le_trans, lex_le, str_lex_le};

verus! {

/// Strictly ascending in the lexicographic order: sorted, no duplicates.
pub open spec fn strictly_sorted_lex(s: Seq<Seq<char>>) -> bool {
    forall|i: int, j: int|
        0 <= i < j < s.len() ==> lex_le(#[trigger] s[i], #[trigger] s[j]) && s[i] != s[j]
}

/// Inserts one string into a sorted duplicate-free list, keeping it so.
fn insert_rule_sorted(out: &mut Vec<String>, s: &String)
    requires
        strictly_sorted_lex(old(out).deep_view()),
    ensures
        strictly_sorted_lex(final(out).deep_view()),
        forall|y: Seq<char>|
            final(out).deep_view().contains(y) <==> (old(out).deep_view().contains(y) || y == s@),
{
    let ghost pre = out.deep_view();
    let mut j: usize = 0;
    while j < out.len()
        invariant
            j <= out.len(),
            pre == out.deep_view(),
            pre == old(out).deep_view(),
            pre.len() == out.len(),
            strictly_sorted_lex(pre),
            forall|k: int| 0 <= k < j ==> lex_le(#[trigger] pre[k], s@) && pre[k] != s@,
        decreases out.len() - j,
    {
        proof {
            assert(pre[j as int] == out@[j as int]@);
        }
        let le_here = str_lex_le(s.as_str(), out[j].as_str());
        if le_here {
            let eq_here = str_lex_le(out[j].as_str(), s.as_str());
            if eq_here {
                proof {
                    lemma_lex_le_antisym(s@, pre[j as int]);
                    assert(pre.contains(s@));
                    assert(pre == old(out).deep_view());
                    assert forall|y: Seq<char>|
                        out.deep_view().contains(y) <==> (pre.contains(y) || y == s@) by {
                        if y == s@ {
                            assert(pre.contains(s@));
                        }
                    }
                }
                return ;
            }
            let ghost pre_at = out@;
            out.insert(j, s.clone());
            proof {
                assert(pre == old(out).deep_view());
                let dv = out.deep_view();
                assert(dv.len() == out@.len());
                assert forall|k: int| 0 <= k < out@.len() implies dv[k] == pre.insert(j as int, s@)[k]
                    by {
                    assert(dv[k] == out@[k]@);
                    if k < j {
                        assert(out@[k] == pre_at[k]);
                        assert(pre[k] == pre_at[k]@);
                    } else if k == j {
                        assert(out@[k]@ == s@);
                    } else {
                        assert(out@[k] == pre_at[k - 1]);
                        assert(pre[k - 1] == pre_at[k - 1]@);
                    }
                }
                assert(dv =~= pre.insert(j as int, s@));
                assert forall|a: int, b: int| 0 <= a < b < dv.len() implies lex_le(
                    #[trigger] dv[a],
                    #[trigger] dv[b],
                ) && dv[a] != dv[b] by {
                    let jj = j as int;
                    if a < jj && b < jj {
                    } else if a < jj && b == jj {
                        assert(dv[a] == pre[a]);
                        assert(dv[b] == s@);
                    } else if a < jj && b > jj {
                        assert(dv[a] == pre[a]);
                        assert(dv[b] == pre[b - 1]);
                        if jj < b - 1 {
                            lemma_lex_le_trans(s@, pre[jj], pre[b - 1]);
                        }
                        lemma_lex_le_trans(pre[a], s@, pre[b - 1]);
                    } else if a == jj {
                        assert(dv[a] == s@);
                        assert(dv[b] == pre[b - 1]);
                        assert(lex_le(s@, pre[jj]) && s@ != pre[jj]);
                        if jj < b - 1 {
                            assert(lex_le(pre[jj], pre[b - 1]) && pre[jj] != pre[b - 1]);
                            lemma_lex_le_trans(s@, pre[jj], pre[b - 1]);
                            if s@ == pre[b - 1] {
                                lemma_lex_le_antisym(pre[jj], pre[b - 1]);
                            }
                        }
                    } else {
                        assert(dv[a] == pre[a - 1]);
                        assert(dv[b] == pre[b - 1]);
                    }
                }
                assert forall|y: Seq<char>| dv.contains(y) <==> (pre.contains(y) || y == s@) by {
                    if dv.contains(y) {
                        let k = choose|k: int| 0 <= k < dv.len() && dv[k] == y;
                        if k < j {
                            assert(pre[k] == y);
                        } else if k == j {
                        } else {
                            assert(pre[k - 1] == y);
                        }
                    }
                    if pre.contains(y) {
                        let k = choose|k: int| 0 <= k < pre.len() && pre[k] == y;
                        if k < j {
                            assert(dv[k] == y);
                        } else {
                            assert(dv[k + 1] == y);
                        }
                    }
                    if y == s@ {
                        assert(dv[j as int] == y);
                    }
                }
            }
            return ;
        }
        proof {
            lemma_lex_le_total(s@, pre[j as int]);
            assert(lex_le(pre[j as int], s@));
            assert(pre[j as int] != s@) by {
                if pre[j as int] == s@ {
                    assert(lex_le(s@, pre[j as int]));
                }
            }
        }
        j += 1;
    }
    let ghost pre_at = out@;
    out.push(s.clone());
    proof {
        let dv = out.deep_view();
        assert(dv.len() == out@.len());
        assert forall|k: int| 0 <= k < out@.len() implies dv[k] == pre.push(s@)[k] by {
            assert(dv[k] == out@[k]@);
            if k < pre_at.len() {
                assert(out@[k] == pre_at[k]);
                assert(pre[k] == pre_at[k]@);
            }
        }
        assert(dv =~= pre.push(s@));
        assert forall|a: int, b: int| 0 <= a < b < dv.len() implies lex_le(
            #[trigger] dv[a],
            #[trigger] dv[b],
        ) && dv[a] != dv[b] by {
            if b < pre.len() {
            } else {
                assert(dv[a] == pre[a]);
                assert(dv[b] == s@);
            }
        }
        assert forall|y: Seq<char>| dv.contains(y) <==> (pre.contains(y) || y == s@) by {
            if dv.contains(y) {
                let k = choose|k: int| 0 <= k < dv.len() && dv[k] == y;
                if k < pre.len() {
                    assert(pre[k] == y);
                }
            }
            if pre.contains(y) {
                let k = choose|k: int| 0 <= k < pre.len() && pre[k] == y;
                assert(dv[k] == y);
            }
            if y == s@ {
                assert(dv[pre.len() as int] == y);
            }
        }
    }
}

/// `r` holds exactly the rules of `a` and `b`, sorted and without
/// duplicates.
pub open spec fn merged_rules(r: Seq<Seq<char>>, a: Seq<Seq<char>>, b: Seq<Seq<char>>) -> bool {
    &&& strictly_sorted_lex(r)
    &&& forall|y: Seq<char>| r.contains(y) <==> (a.contains(y) || b.contains(y))
}

/// Merges two rule lists into one sorted, duplicate-free list holding
/// exactly the rules of both.
pub fn merge_sort_dedup(a: &Vec<String>, b: &Vec<String>) -> (r: Vec<String>)
    ensures
        merged_rules(r.deep_view(), a.deep_view(), b.deep_view()),
{
    let mut out: Vec<String> = Vec::new();
    let mut i: usize = 0;
    while i < a.len()
        invariant
            i <= a.len(),
            strictly_sorted_lex(out.deep_view()),
            forall|y: Seq<char>|
                out.deep_view().contains(y) <==> a.deep_view().take(i as int).contains(y),
        decreases a.len() - i,
    {
        proof {
            assert(a.deep_view()[i as int] == a@[i as int]@);
        }
        insert_rule_sorted(&mut out, &a[i]);
        proof {
            let tk = a.deep_view().take(i + 1);
            assert forall|y: Seq<char>| out.deep_view().contains(y) <==> tk.contains(y) by {
                if out.deep_view().contains(y) {
                    if y == a.deep_view()[i as int] {
                        assert(tk[i as int] == y);
                    } else {
                        let k = choose|k: int|
                            0 <= k < a.deep_view().take(i as int).len() && a.deep_view().take(
                                i as int,
                            )[k] == y;
                        assert(tk[k] == y);
                    }
                }
                if tk.contains(y) {
                    let k = choose|k: int| 0 <= k < tk.len() && tk[k] == y;
                    if k < i {
                        assert(a.deep_view().take(i as int)[k] == y);
                    }
                }
            }
        }
        i += 1;
    }
    proof {
        assert(a.deep_view().take(a.len() as int) =~= a.deep_view());
    }
    let mut i: usize = 0;
    while i < b.len()
        invariant
            i <= b.len(),
            strictly_sorted_lex(out.deep_view()),
            forall|y: Seq<char>|
                out.deep_view().contains(y) <==> (a.deep_view().contains(y)
                    || b.deep_view().take(i as int).contains(y)),
        decreases b.len() - i,
    {
        proof {
            assert(b.deep_view()[i as int] == b@[i as int]@);
        }
        insert_rule_sorted(&mut out, &b[i]);
        proof {
            let tk = b.deep_view().take(i + 1);
            assert forall|y: Seq<char>|
                out.deep_view().contains(y) <==> (a.deep_view().contains(y) || tk.contains(y)) by {
                if out.deep_view().contains(y) && !a.deep_view().contains(y) {
                    if y == b.deep_view()[i as int] {
                        assert(tk[i as int] == y);
                    } else {
                        let k = choose|k: int|
                            0 <= k < b.deep_view().take(i as int).len() && b.deep_view().take(
                                i as int,
                            )[k] == y;
                        assert(tk[k] == y);
                    }
                }
                if tk.contains(y) {
                    let k = choose|k: int| 0 <= k < tk.len() && tk[k] == y;
                    if k < i {
                        assert(b.deep_view().take(i as int)[k] == y);
                    }
                }
            }
        }
        i += 1;
    }
    proof {
        assert(b.deep_view().take(b.len() as int) =~= b.deep_view());
    }
    out
}

/// One sync operation as configured: roots, rule lists and flags. In
/// batch mode each operation of the batch is one of these.
pub struct Arguments {
    /// Source directory, or the batch configuration file when no target
    /// is given.
    pub source: String,
    /// Target directory; absent means `source` names a batch
    /// configuration.
    pub target: Option<String>,
    pub exclude_dirs: Vec<String>,
    pub exclude_files: Vec<String>,
    pub exclude_patterns: Vec<String>,
    pub retain_dirs: Vec<String>,
    pub retain_files: Vec<String>,
    pub retain_patterns: Vec<String>,
    pub force_dirs: Vec<String>,
    pub force_files: Vec<String>,
    pub force_patterns: Vec<String>,
    pub no_delete: bool,
    pub log_files: bool,
    pub log_rules: bool,
}

impl Arguments {
    /// Whether the arguments name a batch configuration rather than a
    /// source-target pair.
    pub fn is_json_config(&self) -> (r: bool)
        ensures
            r == (self.target is None),
    {
        match &self.target {
            Some(_) => false,
            None => true,
        }
    }
}

/// The batch configuration: global rule lists and flags, and the
/// operations to run.
pub struct JSONConfig {
    pub exclude_dirs: Vec<String>,
    pub exclude_files: Vec<String>,
    pub exclude_patterns: Vec<String>,
    pub retain_dirs: Vec<String>,
    pub retain_files: Vec<String>,
    pub retain_patterns: Vec<String>,
    pub force_dirs: Vec<String>,
    pub force_files: Vec<String>,
    pub force_patterns: Vec<String>,
    pub log_files: bool,
    pub drive_info: Vec<String>,
    pub post_commands: Vec<String>,
    pub wait_on_end: bool,
    pub operations: Vec<Arguments>,
}

/// Checks that a path names an existing entry; the caller supplies the
/// answer of the filesystem probe. A missing path is rejected with a
/// message naming it.
pub fn args_validate_existing_path(s: &str, path_exists: bool) -> (r: Result<String, String>)
    ensures
        r is Ok <==> path_exists,
        path_exists ==> r->Ok_0@ == s@,
        !path_exists ==> r->Err_0@ == "Path '"@ + s@ + "' does not exist."@,
{
    if path_exists {
        Ok(s.to_owned())
    } else {
        let mut msg = String::new();
        msg.append("Path '");
        msg.append(s);
        msg.append("' does not exist.");
        proof {
            assert(msg@ =~= "Path '"@ + s@ + "' does not exist."@);
        }
        Err(msg)
    }
}

/// Accepts any string as a path.
pub fn args_parse_path(s: &str) -> (r: Result<String, String>)
    ensures
        r is Ok,
        r->Ok_0@ == s@,
{
    Ok(s.to_owned())
}

/// Compiles one glob pattern argument.
pub fn args_parse_pattern(s: &str) -> (r: Result<GlobPattern, PatternFault>)
    ensures
        r is Ok <==> glob_pattern_ok(s@),
        r is Ok ==> r->Ok_0@ == s@,
{
    GlobPattern::new(s)
}

/// Builds the operation descriptor from merged arguments, compiling
/// every pattern; the first ill-formed pattern is reported and nothing
/// is built. The target must be present: batch configurations are
/// resolved into operations before this point.
pub fn build_operation(args: Arguments) -> (r: Result<SyncOperation, PatternFault>)
    requires
        args.target is Some,
    ensures
        r is Ok <==> ((forall|i: int|
            0 <= i < args.exclude_patterns.deep_view().len() ==> glob_pattern_ok(
                args.exclude_patterns.deep_view()[i],
            )) && (forall|i: int|
            0 <= i < args.retain_patterns.deep_view().len() ==> glob_pattern_ok(
                args.retain_patterns.deep_view()[i],
            )) && (forall|i: int|
            0 <= i < args.force_patterns.deep_view().len() ==> glob_pattern_ok(
                args.force_patterns.deep_view()[i],
            ))),
        r is Ok ==> r->Ok_0@ == (SyncOperationV {
            source: args.source@,
            target: args.target->0@,
            exclude: crate::filter::RuleSetV {
                dirs: args.exclude_dirs.deep_view(),
                files: args.exclude_files.deep_view(),
                patterns: args.exclude_patterns.deep_view(),
            },
            retain: crate::filter::RuleSetV {
                dirs: args.retain_dirs.deep_view(),
                files: args.retain_files.deep_view(),
                patterns: args.retain_patterns.deep_view(),
            },
            force: crate::filter::RuleSetV {
                dirs: args.force_dirs.deep_view(),
                files: args.force_files.deep_view(),
                patterns: args.force_patterns.deep_view(),
            },
            no_delete: args.no_delete,
            log_files: args.log_files,
        }),
{
    let Arguments {
        source,
        target,
        exclude_dirs,
        exclude_files,
        exclude_patterns,
        retain_dirs,
        retain_files,
        retain_patterns,
        force_dirs,
        force_files,
        force_patterns,
        no_delete,
        log_files,
        log_rules: _,
    } = args;
    let target = match target {
        Some(t) => t,
        None => {
            proof {
                assert(false);
            }
            return Err(PatternFault { pos: 0, msg: String::new() });
        },
    };
    let exclude = match RuleSet::compile(exclude_dirs, exclude_files, &exclude_patterns) {
        Ok(rs) => rs,
        Err(f) => {
            return Err(f);
        },
    };
    let retain = match RuleSet::compile(retain_dirs, retain_files, &retain_patterns) {
        Ok(rs) => rs,
        Err(f) => {
            return Err(f);
        },
    };
    let force = match RuleSet::compile(force_dirs, force_files, &force_patterns) {
        Ok(rs) => rs,
        Err(f) => {
            return Err(f);
        },
    };
    Ok(SyncOperation { source, target, exclude, retain, force, no_delete, log_files })
}

impl JSONConfig {
    /// Folds the command-line rule lists into the global lists, as the
    /// batch mode does before resolving its operations.
    pub fn absorb_cli_rules(&mut self, cli: &Arguments)
        ensures
            merged_rules(
                final(self).exclude_dirs.deep_view(),
                old(self).exclude_dirs.deep_view(),
                cli.exclude_dirs.deep_view(),
            ),
            merged_rules(
                final(self).exclude_files.deep_view(),
                old(self).exclude_files.deep_view(),
                cli.exclude_files.deep_view(),
            ),
            merged_rules(
                final(self).exclude_patterns.deep_view(),
                old(self).exclude_patterns.deep_view(),
                cli.exclude_patterns.deep_view(),
            ),
            merged_rules(
                final(self).retain_dirs.deep_view(),
                old(self).retain_dirs.deep_view(),
                cli.retain_dirs.deep_view(),
            ),
            merged_rules(
                final(self).retain_files.deep_view(),
                old(self).retain_files.deep_view(),
                cli.retain_files.deep_view(),
            ),
            merged_rules(
                final(self).retain_patterns.deep_view(),
                old(self).retain_patterns.deep_view(),
                cli.retain_patterns.deep_view(),
            ),
            merged_rules(
                final(self).force_dirs.deep_view(),
                old(self).force_dirs.deep_view(),
                cli.force_dirs.deep_view(),
            ),
            merged_rules(
                final(self).force_files.deep_view(),
                old(self).force_files.deep_view(),
                cli.force_files.deep_view(),
            ),
            merged_rules(
                final(self).force_patterns.deep_view(),
                old(self).force_patterns.deep_view(),
                cli.force_patterns.deep_view(),
            ),
            final(self).log_files == old(self).log_files,
            final(self).drive_info == old(self).drive_info,
            final(self).post_commands == old(self).post_commands,
            final(self).wait_on_end == old(self).wait_on_end,
            final(self).operations == old(self).operations,
    {
        self.exclude_dirs = merge_sort_dedup(&self.exclude_dirs, &cli.exclude_dirs);
        self.exclude_files = merge_sort_dedup(&self.exclude_files, &cli.exclude_files);
        self.exclude_patterns = merge_sort_dedup(&self.exclude_patterns, &cli.exclude_patterns);
        self.retain_dirs = merge_sort_dedup(&self.retain_dirs, &cli.retain_dirs);
        self.retain_files = merge_sort_dedup(&self.retain_files, &cli.retain_files);
        self.retain_patterns = merge_sort_dedup(&self.retain_patterns, &cli.retain_patterns);
        self.force_dirs = merge_sort_dedup(&self.force_dirs, &cli.force_dirs);
        self.force_files = merge_sort_dedup(&self.force_files, &cli.force_files);
        self.force_patterns = merge_sort_dedup(&self.force_patterns, &cli.force_patterns);
    }
}

impl Arguments {
    /// Folds the batch-global rule lists and flags into one operation:
    /// lists are merged; `no_delete` is forced on by the command line;
    /// `log_files` is forced on by the batch or the command line.
    pub fn absorb_globals(&mut self, config: &JSONConfig, cli_no_delete: bool, cli_log_files: bool)
        ensures
            merged_rules(
                final(self).exclude_dirs.deep_view(),
                old(self).exclude_dirs.deep_view(),
                config.exclude_dirs.deep_view(),
            ),
            merged_rules(
                final(self).exclude_files.deep_view(),
                old(self).exclude_files.deep_view(),
                config.exclude_files.deep_view(),
            ),
            merged_rules(
                final(self).exclude_patterns.deep_view(),
                old(self).exclude_patterns.deep_view(),
                config.exclude_patterns.deep_view(),
            ),
            merged_rules(
                final(self).retain_dirs.deep_view(),
                old(self).retain_dirs.deep_view(),
                config.retain_dirs.deep_view(),
            ),
            merged_rules(
                final(self).retain_files.deep_view(),
                old(self).retain_files.deep_view(),
                config.retain_files.deep_view(),
            ),
            merged_rules(
                final(self).retain_patterns.deep_view(),
                old(self).retain_patterns.deep_view(),
                config.retain_patterns.deep_view(),
            ),
            merged_rules(
                final(self).force_dirs.deep_view(),
                old(self).force_dirs.deep_view(),
                config.force_dirs.deep_view(),
            ),
            merged_rules(
                final(self).force_files.deep_view(),
                old(self).force_files.deep_view(),
                config.force_files.deep_view(),
            ),
            merged_rules(
                final(self).force_patterns.deep_view(),
                old(self).force_patterns.deep_view(),
                config.force_patterns.deep_view(),
            ),
            final(self).no_delete == (old(self).no_delete || cli_no_delete),
            final(self).log_files == (old(self).log_files || config.log_files || cli_log_files),
            final(self).source == old(self).source,
            final(self).target == old(self).target,
            final(self).log_rules == old(self).log_rules,
    {
        self.exclude_dirs = merge_sort_dedup(&self.exclude_dirs, &config.exclude_dirs);
        self.exclude_files = merge_sort_dedup(&self.exclude_files, &config.exclude_files);
        self.exclude_patterns = merge_sort_dedup(&self.exclude_patterns, &config.exclude_patterns);
        self.retain_dirs = merge_sort_dedup(&self.retain_dirs, &config.retain_dirs);
        self.retain_files = merge_sort_dedup(&self.retain_files, &config.retain_files);
        self.retain_patterns = merge_sort_dedup(&self.retain_patterns, &config.retain_patterns);
        self.force_dirs = merge_sort_dedup(&self.force_dirs, &config.force_dirs);
        self.force_files = merge_sort_dedup(&self.force_files, &config.force_files);
        self.force_patterns = merge_sort_dedup(&self.force_patterns, &config.force_patterns);
        if cli_no_delete {
            self.no_delete = true;
        }
        if config.log_files {
            self.log_files = true;
        }
        if cli_log_files {
            self.log_files = true;
        }
    }
}

} // verus!
