use baccy::reconcile::plan_dir_removals;

fn names(list: &[&str]) -> Vec<String> {
    list.iter().map(|s| s.to_string()).collect()
}

#[test]
fn deep_orphan_subtree_is_removed_children_first() {
    let source = names(&["a"]);
    let target = names(&["a", "a/x", "a/x/y", "a/x/y/z"]);
    let plan = plan_dir_removals(&source, &target);
    assert_eq!(plan, names(&["a/x/y/z", "a/x/y", "a/x"]));
}

#[test]
fn only_orphans_are_planned() {
    let source = names(&["a", "a/b"]);
    let target = names(&["a", "a/b", "a/gone"]);
    let plan = plan_dir_removals(&source, &target);
    assert_eq!(plan, names(&["a/gone"]));
}

#[test]
fn no_orphans_no_plan() {
    let dirs = names(&["a", "a/b"]);
    let plan = plan_dir_removals(&dirs, &dirs);
    assert!(plan.is_empty());
}

#[test]
fn equal_depths_keep_target_order() {
    let source = Vec::new();
    let target = names(&["b", "a", "deep/one", "c", "deep/two"]);
    let plan = plan_dir_removals(&source, &target);
    assert_eq!(plan, names(&["deep/one", "deep/two", "b", "a", "c"]));
}

#[test]
fn depths_never_increase_along_the_plan() {
    let source = names(&["keep"]);
    let target = names(&["x", "keep", "x/1", "y", "x/1/2", "y/1", "z"]);
    let plan = plan_dir_removals(&source, &target);
    let depth = |s: &String| s.split('/').count();
    for w in plan.windows(2) {
        assert!(depth(&w[0]) >= depth(&w[1]));
    }
    assert_eq!(plan.len(), 6);
}
