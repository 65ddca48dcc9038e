use baccy::config::{
    args_parse_path, args_parse_pattern, args_validate_existing_path, build_operation,
    merge_sort_dedup, Arguments, JSONConfig,
};
use baccy::counters::Counters;
use baccy::options::Exclude;
use baccy::scanner::plan_copies;
use baccy::tasks::FileEntry;
use baccy::util::{bytes_to_string, normalize_drive, str_lex_le};

fn names(list: &[&str]) -> Vec<String> {
    list.iter().map(|s| s.to_string()).collect()
}

fn bare_arguments(source: &str, target: Option<&str>) -> Arguments {
    Arguments {
        source: source.to_string(),
        target: target.map(|t| t.to_string()),
        exclude_dirs: Vec::new(),
        exclude_files: Vec::new(),
        exclude_patterns: Vec::new(),
        retain_dirs: Vec::new(),
        retain_files: Vec::new(),
        retain_patterns: Vec::new(),
        force_dirs: Vec::new(),
        force_files: Vec::new(),
        force_patterns: Vec::new(),
        no_delete: false,
        log_files: false,
        log_rules: false,
    }
}

fn bare_config() -> JSONConfig {
    JSONConfig {
        exclude_dirs: Vec::new(),
        exclude_files: Vec::new(),
        exclude_patterns: Vec::new(),
        retain_dirs: Vec::new(),
        retain_files: Vec::new(),
        retain_patterns: Vec::new(),
        force_dirs: Vec::new(),
        force_files: Vec::new(),
        force_patterns: Vec::new(),
        log_files: false,
        drive_info: Vec::new(),
        post_commands: Vec::new(),
        wait_on_end: false,
        operations: Vec::new(),
    }
}

#[test]
fn merge_sorts_and_deduplicates() {
    let merged = merge_sort_dedup(&names(&["b", "a"]), &names(&["c", "a"]));
    assert_eq!(merged, names(&["a", "b", "c"]));
    let merged = merge_sort_dedup(&names(&[]), &names(&[]));
    assert!(merged.is_empty());
    let merged = merge_sort_dedup(&names(&["x", "x", "y"]), &names(&[]));
    assert_eq!(merged, names(&["x", "y"]));
}

#[test]
fn lexicographic_order_is_by_code_point() {
    assert!(str_lex_le("a", "b"));
    assert!(!str_lex_le("b", "a"));
    assert!(str_lex_le("abc", "abd"));
    assert!(str_lex_le("ab", "abc"));
    assert!(!str_lex_le("abc", "ab"));
    assert!(str_lex_le("same", "same"));
    assert!(str_lex_le("", "anything"));
}

#[test]
fn cli_rules_fold_into_the_global_lists() {
    let mut config = bare_config();
    config.exclude_dirs = names(&["target", "dist"]);
    let mut cli = bare_arguments("conf.json", None);
    cli.exclude_dirs = names(&["node_modules", "dist"]);
    config.absorb_cli_rules(&cli);
    assert_eq!(config.exclude_dirs, names(&["dist", "node_modules", "target"]));
}

#[test]
fn globals_fold_into_the_operation_with_flag_overrides() {
    let mut config = bare_config();
    config.exclude_files = names(&["thumbs.db"]);
    config.log_files = true;
    let mut operation = bare_arguments("s", Some("t"));
    operation.exclude_files = names(&["desktop.ini"]);
    operation.absorb_globals(&config, true, false);
    assert_eq!(operation.exclude_files, names(&["desktop.ini", "thumbs.db"]));
    assert!(operation.no_delete);
    assert!(operation.log_files);
}

#[test]
fn is_json_config_means_no_target() {
    assert!(bare_arguments("conf.json", None).is_json_config());
    assert!(!bare_arguments("src", Some("dst")).is_json_config());
}

#[test]
fn path_validation_reports_the_missing_path() {
    assert_eq!(args_validate_existing_path("/tmp", true).unwrap(), "/tmp".to_string());
    let err = args_validate_existing_path("/nowhere", false).err().unwrap();
    assert_eq!(err, "Path '/nowhere' does not exist.".to_string());
}

#[test]
fn parse_path_accepts_anything() {
    assert_eq!(args_parse_path("x/y").unwrap(), "x/y".to_string());
}

#[test]
fn parse_pattern_compiles_or_reports() {
    assert!(args_parse_pattern("**/*.rs").is_ok());
    assert!(args_parse_pattern("oops**").is_err());
}

#[test]
fn build_operation_carries_the_rules() {
    let mut args = bare_arguments("s", Some("t"));
    args.exclude_patterns = names(&["**/*.tmp"]);
    args.no_delete = true;
    let operation = build_operation(args).unwrap();
    assert_eq!(operation.source, "s".to_string());
    assert_eq!(operation.target, "t".to_string());
    assert!(operation.no_delete);
    // the compiled exclude pattern is live: a matching file is not copied
    let source = vec![
        FileEntry::new("a/x.tmp".to_string(), false, 1, 5),
        FileEntry::new("a/x.txt".to_string(), false, 1, 5),
    ];
    let mut counters = Counters::new();
    let tasks = plan_copies(&operation, &source, &Vec::new(), &mut counters);
    assert_eq!(tasks.len(), 1);
    assert_eq!(tasks[0].relative().as_str(), "a/x.txt");
}

#[test]
fn build_operation_rejects_a_bad_pattern() {
    let mut args = bare_arguments("s", Some("t"));
    args.retain_patterns = names(&["fine", "bad**"]);
    assert!(build_operation(args).is_err());
}

#[test]
fn bytes_to_string_picks_the_unit() {
    assert_eq!(bytes_to_string(0), "0.00 kiB".to_string());
    assert_eq!(bytes_to_string(1024), "1.00 kiB".to_string());
    assert_eq!(bytes_to_string(1536), "1.50 kiB".to_string());
    assert_eq!(bytes_to_string(1024 * 1024), "1.00 MiB".to_string());
    assert_eq!(bytes_to_string(5 * 1024 * 1024 * 1024), "5.00 GiB".to_string());
    assert_eq!(bytes_to_string(512), "0.50 kiB".to_string());
}

#[test]
fn normalize_drive_completes_the_suffix() {
    assert_eq!(normalize_drive("C".to_string()), "C:\\".to_string());
    assert_eq!(normalize_drive("C:".to_string()), "C:\\".to_string());
    assert_eq!(normalize_drive("C:\\".to_string()), "C:\\".to_string());
}

#[test]
fn exclude_rule_kinds_carry_their_text() {
    let rule = Exclude::DirName("node_modules".to_string());
    match rule {
        Exclude::DirName(name) => assert_eq!(name, "node_modules".to_string()),
        Exclude::FileName(_) | Exclude::Pattern(_) => panic!("wrong kind"),
    }
}
