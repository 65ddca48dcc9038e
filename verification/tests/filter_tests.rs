use baccy::config::args_parse_pattern;
use baccy::filter::{keep_entry, RuleSet};
use baccy::paths::{component_count, join_path, path_components};

fn names(list: &[&str]) -> Vec<String> {
    list.iter().map(|s| s.to_string()).collect()
}

fn rules(dirs: &[&str], files: &[&str], patterns: &[&str]) -> RuleSet {
    RuleSet::compile(names(dirs), names(files), &names(patterns)).unwrap()
}

fn no_rules() -> RuleSet {
    RuleSet::empty()
}

#[test]
fn exclude_dir_drops_everything_under_it() {
    let exclude = rules(&["node_modules"], &[], &[]);
    assert!(!keep_entry("node_modules/x.txt", false, &exclude, &no_rules(), &no_rules()));
    assert!(!keep_entry("a/node_modules/y.js", false, &exclude, &no_rules(), &no_rules()));
    assert!(!keep_entry("node_modules/deep/down/z", false, &exclude, &no_rules(), &no_rules()));
    assert!(keep_entry("src/x.txt", false, &exclude, &no_rules(), &no_rules()));
    // a directory named like the rule is itself dropped
    assert!(!keep_entry("node_modules", true, &exclude, &no_rules(), &no_rules()));
    // a *file* named like the rule is not matched by a directory rule
    assert!(keep_entry("node_modules", false, &exclude, &no_rules(), &no_rules()));
}

#[test]
fn retain_files_drops_other_files() {
    let retain = rules(&[], &["a.txt"], &[]);
    assert!(keep_entry("a.txt", false, &no_rules(), &retain, &no_rules()));
    assert!(keep_entry("sub/a.txt", false, &no_rules(), &retain, &no_rules()));
    assert!(!keep_entry("b.txt", false, &no_rules(), &retain, &no_rules()));
    // file-name retain rules do not constrain directories
    assert!(keep_entry("somedir", true, &no_rules(), &retain, &no_rules()));
}

#[test]
fn force_rule_overrides_exclusion() {
    let exclude = rules(&[], &["secret.txt"], &[]);
    let force = rules(&[], &["secret.txt"], &[]);
    assert!(!keep_entry("secret.txt", false, &exclude, &no_rules(), &no_rules()));
    assert!(keep_entry("secret.txt", false, &exclude, &no_rules(), &force));
}

#[test]
fn force_rule_overrides_retain() {
    let retain = rules(&[], &["a.txt"], &[]);
    let force = rules(&[], &["b.txt"], &[]);
    assert!(!keep_entry("b.txt", false, &no_rules(), &retain, &no_rules()));
    assert!(keep_entry("b.txt", false, &no_rules(), &retain, &force));
}

#[test]
fn exclude_pattern_matches_whole_path() {
    let exclude = rules(&[], &[], &["**/*.js"]);
    assert!(!keep_entry("a/b/c.js", false, &exclude, &no_rules(), &no_rules()));
    assert!(keep_entry("a/b/c.rs", false, &exclude, &no_rules(), &no_rules()));
    let exclude_root = rules(&[], &[], &["main.js"]);
    assert!(!keep_entry("main.js", false, &exclude_root, &no_rules(), &no_rules()));
    assert!(keep_entry("sub/main.js", false, &exclude_root, &no_rules(), &no_rules()));
}

#[test]
fn retain_pattern_requires_a_match() {
    let retain = rules(&[], &[], &["docs/**"]);
    assert!(keep_entry("docs/guide.md", false, &no_rules(), &retain, &no_rules()));
    assert!(!keep_entry("src/lib.rs", false, &no_rules(), &retain, &no_rules()));
}

#[test]
fn retain_dirs_requires_an_ancestor_match() {
    let retain = rules(&["kept"], &[], &[]);
    assert!(keep_entry("kept/file.txt", false, &no_rules(), &retain, &no_rules()));
    assert!(keep_entry("a/kept/b/file.txt", false, &no_rules(), &retain, &no_rules()));
    assert!(!keep_entry("other/file.txt", false, &no_rules(), &retain, &no_rules()));
}

#[test]
fn empty_rules_keep_everything() {
    assert!(keep_entry("anything/at/all.bin", false, &no_rules(), &no_rules(), &no_rules()));
    assert!(keep_entry("dir", true, &no_rules(), &no_rules(), &no_rules()));
}

#[test]
fn bad_pattern_is_reported() {
    assert!(args_parse_pattern("a**b").is_err());
    let fault = args_parse_pattern("a**b").err().unwrap();
    assert!(!fault.msg.is_empty());
    assert!(RuleSet::compile(Vec::new(), Vec::new(), &names(&["ok*", "a**b"])).is_err());
    assert!(args_parse_pattern("**/ok[0-9]").is_ok());
}

#[test]
fn pattern_matching_uses_the_real_glob_grammar() {
    let exclude = rules(&[], &[], &["k[!e]tteh"]);
    assert!(!keep_entry("kitteh", false, &exclude, &no_rules(), &no_rules()));
    assert!(keep_entry("ketteh", false, &exclude, &no_rules(), &no_rules()));
}

#[test]
fn components_split_on_separators() {
    let c = path_components("a/b/c.txt");
    assert_eq!(c, vec!["a".to_string(), "b".to_string(), "c.txt".to_string()]);
    assert_eq!(path_components(""), vec!["".to_string()]);
    assert_eq!(path_components("a//b"), vec!["a".to_string(), "".to_string(), "b".to_string()]);
    assert_eq!(path_components("lonely"), vec!["lonely".to_string()]);
}

#[test]
fn component_count_counts_components() {
    assert_eq!(component_count("a/b/c"), 3);
    assert_eq!(component_count("a"), 1);
    assert_eq!(component_count(""), 1);
}

#[test]
fn join_path_inserts_one_separator() {
    assert_eq!(join_path("root", "a/b").as_str(), "root/a/b");
    assert_eq!(join_path("", "x").as_str(), "/x");
}
