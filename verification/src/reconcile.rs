//! The directory reconciler: plans the removal of orphaned target
//! directories.
//!
//! After the task stream has drained, the target tree may still hold
//! directories with no counterpart under source. The reconciler lists
//! them and orders them by descending depth, so that a directory's
//! subdirectories always come up for removal before the directory
//! itself: removals done in plan order never fail merely for ordering.

use vstd::prelude::*;

use crate::filter::name_in_list;
use crate::paths::{component_count, path_depth, strict_ancestor_path};

verus! {

/// The target directories with no source counterpart, in target order.
pub open spec fn orphan_dirs(src: Seq<Seq<char>>, tgt: Seq<Seq<char>>) -> Seq<Seq<char>>
    decreases tgt.len(),
{
    if tgt.len() == 0 {
        Seq::empty()
    } else {
        let rest = orphan_dirs(src, tgt.drop_last());
        if !src.contains(tgt.last()) {
            rest.push(tgt.last())
        } else {
            rest
        }
    }
}

/// Inserts `x` behind every element at least as deep: a stable insertion
/// for a descending-depth order.
pub open spec fn insert_by_depth(s: Seq<Seq<char>>, x: Seq<char>) -> Seq<Seq<char>>
    decreases s.len(),
{
    if s.len() == 0 {
        seq![x]
    } else if path_depth(s[0]) >= path_depth(x) {
        seq![s[0]] + insert_by_depth(s.drop_first(), x)
    } else {
        seq![x] + s
    }
}

/// Stable insertion sort by descending path depth.
pub open spec fn sort_by_depth(s: Seq<Seq<char>>) -> Seq<Seq<char>>
    decreases s.len(),
{
    if s.len() == 0 {
        Seq::empty()
    } else {
        insert_by_depth(sort_by_depth(s.drop_last()), s.last())
    }
}

/// Depths never increase along the sequence.
pub open spec fn sorted_by_depth_desc(s: Seq<Seq<char>>) -> bool {
    forall|i: int, j: int|
        0 <= i < j < s.len() ==> path_depth(#[trigger] s[i]) >= path_depth(#[trigger] s[j])
}

/// Every element is at most `d` deep.
pub open spec fn all_depth_le(s: Seq<Seq<char>>, d: nat) -> bool {
    forall|k: int| 0 <= k < s.len() ==> path_depth(#[trigger] s[k]) <= d
}

/// Inserting holds the elements of `s` plus `x` and nothing else.
pub proof fn lemma_insert_by_depth_contains(s: Seq<Seq<char>>, x: Seq<char>, y: Seq<char>)
    ensures
        insert_by_depth(s, x).contains(y) <==> (s.contains(y) || y == x),
    decreases s.len(),
{
    let r = insert_by_depth(s, x);
    if s.len() == 0 {
        assert(r =~= seq![x]);
        if r.contains(y) {
            let i = choose|i: int| 0 <= i < r.len() && r[i] == y;
            assert(y == x);
        }
        if y == x {
            assert(r[0] == y);
        }
    } else if path_depth(s[0]) >= path_depth(x) {
        lemma_insert_by_depth_contains(s.drop_first(), x, y);
        let rest = insert_by_depth(s.drop_first(), x);
        assert(r =~= seq![s[0]] + rest);
        if r.contains(y) {
            let i = choose|i: int| 0 <= i < r.len() && r[i] == y;
            if i == 0 {
                assert(s[0] == y);
            } else {
                assert(rest[i - 1] == y);
                assert(rest.contains(y));
                if s.drop_first().contains(y) {
                    let k = choose|k: int| 0 <= k < s.drop_first().len() && s.drop_first()[k] == y;
                    assert(s[k + 1] == y);
                }
            }
        }
        if s.contains(y) {
            let i = choose|i: int| 0 <= i < s.len() && s[i] == y;
            if i == 0 {
                assert(r[0] == y);
            } else {
                assert(s.drop_first()[i - 1] == y);
                assert(s.drop_first().contains(y));
                let k = choose|k: int| 0 <= k < rest.len() && rest[k] == y;
                assert(r[k + 1] == y);
            }
        }
        if y == x {
            let k = choose|k: int| 0 <= k < rest.len() && rest[k] == y;
            assert(r[k + 1] == y);
        }
    } else {
        assert(r =~= seq![x] + s);
        if r.contains(y) {
            let i = choose|i: int| 0 <= i < r.len() && r[i] == y;
            if i > 0 {
                assert(s[i - 1] == y);
            }
        }
        if s.contains(y) {
            let i = choose|i: int| 0 <= i < s.len() && s[i] == y;
            assert(r[i + 1] == y);
        }
        if y == x {
            assert(r[0] == y);
        }
    }
}

/// Sorting neither adds nor loses elements.
pub proof fn lemma_sort_by_depth_contains(s: Seq<Seq<char>>, y: Seq<char>)
    ensures
        sort_by_depth(s).contains(y) <==> s.contains(y),
    decreases s.len(),
{
    if s.len() != 0 {
        lemma_sort_by_depth_contains(s.drop_last(), y);
        lemma_insert_by_depth_contains(sort_by_depth(s.drop_last()), s.last(), y);
        if s.drop_last().contains(y) {
            let i = choose|i: int| 0 <= i < s.drop_last().len() && s.drop_last()[i] == y;
            assert(s[i] == y);
        }
        if s.contains(y) {
            let i = choose|i: int| 0 <= i < s.len() && s[i] == y;
            if i < s.len() - 1 {
                assert(s.drop_last()[i] == y);
            } else {
                assert(y == s.last());
            }
        }
    }
}

/// Inserting below a depth bound keeps the bound.
pub proof fn lemma_insert_all_depth_le(s: Seq<Seq<char>>, x: Seq<char>, d: nat)
    requires
        all_depth_le(s, d),
        path_depth(x) <= d,
    ensures
        all_depth_le(insert_by_depth(s, x), d),
    decreases s.len(),
{
    let r = insert_by_depth(s, x);
    if s.len() == 0 {
        assert(r =~= seq![x]);
    } else if path_depth(s[0]) >= path_depth(x) {
        assert(all_depth_le(s.drop_first(), d)) by {
            assert(forall|k: int|
                0 <= k < s.drop_first().len() ==> #[trigger] s.drop_first()[k] == s[k + 1]);
        }
        lemma_insert_all_depth_le(s.drop_first(), x, d);
        let rest = insert_by_depth(s.drop_first(), x);
        assert forall|k: int| 0 <= k < r.len() implies path_depth(#[trigger] r[k]) <= d by {
            if k == 0 {
                assert(r[0] == s[0]);
            } else {
                assert(r[k] == rest[k - 1]);
            }
        }
    } else {
        assert forall|k: int| 0 <= k < r.len() implies path_depth(#[trigger] r[k]) <= d by {
            if k == 0 {
                assert(r[0] == x);
            } else {
                assert(r[k] == s[k - 1]);
            }
        }
    }
}

/// Inserting into a descending sequence keeps it descending.
pub proof fn lemma_insert_preserves_sorted(s: Seq<Seq<char>>, x: Seq<char>)
    requires
        sorted_by_depth_desc(s),
    ensures
        sorted_by_depth_desc(insert_by_depth(s, x)),
    decreases s.len(),
{
    let r = insert_by_depth(s, x);
    if s.len() == 0 {
        assert(r =~= seq![x]);
    } else if path_depth(s[0]) >= path_depth(x) {
        let tail = s.drop_first();
        assert(forall|k: int| 0 <= k < tail.len() ==> #[trigger] tail[k] == s[k + 1]);
        assert(sorted_by_depth_desc(tail));
        lemma_insert_preserves_sorted(tail, x);
        let rest = insert_by_depth(tail, x);
        assert(all_depth_le(tail, path_depth(s[0])));
        lemma_insert_all_depth_le(tail, x, path_depth(s[0]));
        assert(all_depth_le(rest, path_depth(s[0])));
        assert forall|i: int, j: int|
            0 <= i < j < r.len() implies path_depth(#[trigger] r[i]) >= path_depth(
            #[trigger] r[j]) by {
            if i == 0 {
                assert(r[0] == s[0]);
                assert(r[j] == rest[j - 1]);
            } else {
                assert(r[i] == rest[i - 1]);
                assert(r[j] == rest[j - 1]);
            }
        }
    } else {
        assert forall|i: int, j: int|
            0 <= i < j < r.len() implies path_depth(#[trigger] r[i]) >= path_depth(
            #[trigger] r[j]) by {
            if i == 0 {
                assert(r[0] == x);
                assert(r[j] == s[j - 1]);
                if j > 1 {
                    assert(path_depth(s[0]) >= path_depth(s[j - 1]));
                }
            } else {
                assert(r[i] == s[i - 1]);
                assert(r[j] == s[j - 1]);
            }
        }
    }
}

/// The sorted plan is descending in depth.
pub proof fn lemma_sort_by_depth_sorted(s: Seq<Seq<char>>)
    ensures
        sorted_by_depth_desc(sort_by_depth(s)),
    decreases s.len(),
{
    if s.len() != 0 {
        lemma_sort_by_depth_sorted(s.drop_last());
        lemma_insert_preserves_sorted(sort_by_depth(s.drop_last()), s.last());
    }
}

/// An orphan is exactly a target directory absent from source.
pub proof fn lemma_orphan_dirs_contains(src: Seq<Seq<char>>, tgt: Seq<Seq<char>>, y: Seq<char>)
    ensures
        orphan_dirs(src, tgt).contains(y) <==> (tgt.contains(y) && !src.contains(y)),
    decreases tgt.len(),
{
    if tgt.len() != 0 {
        lemma_orphan_dirs_contains(src, tgt.drop_last(), y);
        let rest = orphan_dirs(src, tgt.drop_last());
        if tgt.drop_last().contains(y) {
            let i = choose|i: int| 0 <= i < tgt.drop_last().len() && tgt.drop_last()[i] == y;
            assert(tgt[i] == y);
        }
        if !src.contains(tgt.last()) {
            let full = rest.push(tgt.last());
            assert(full.drop_last() =~= rest);
            if full.contains(y) {
                let i = choose|i: int| 0 <= i < full.len() && full[i] == y;
                if i < rest.len() {
                    assert(rest[i] == y);
                } else {
                    assert(y == tgt.last());
                    assert(tgt.contains(y));
                }
            }
            if tgt.contains(y) && !src.contains(y) {
                let i = choose|i: int| 0 <= i < tgt.len() && tgt[i] == y;
                if i < tgt.len() - 1 {
                    assert(tgt.drop_last()[i] == y);
                    let k = choose|k: int| 0 <= k < rest.len() && rest[k] == y;
                    assert(full[k] == y);
                } else {
                    assert(full.last() == y);
                }
            }
        } else {
            if tgt.contains(y) && !src.contains(y) {
                let i = choose|i: int| 0 <= i < tgt.len() && tgt[i] == y;
                assert(i < tgt.len() - 1);
                assert(tgt.drop_last()[i] == y);
            }
        }
    }
}

/// The index where the exec plan inserts: behind every element at least
/// as deep as `depth_x`.
fn removal_insert_index(out: &Vec<String>, depth_x: usize) -> (j: usize)
    ensures
        j <= out.len(),
        forall|k: int| 0 <= k < j ==> path_depth(out.deep_view()[k]) >= depth_x,
        j < out.len() ==> path_depth(out.deep_view()[j as int]) < depth_x,
{
    let mut j: usize = 0;
    while j < out.len()
        invariant
            j <= out.len(),
            forall|k: int| 0 <= k < j ==> path_depth(out.deep_view()[k]) >= depth_x,
        decreases out.len() - j,
    {
        proof {
            assert(out.deep_view()[j as int] == out@[j as int]@);
        }
        if component_count(out[j].as_str()) < depth_x {
            return j;
        }
        j += 1;
    }
    j
}

/// A scan-front insertion lands exactly where the exec plan inserts.
pub proof fn lemma_insert_by_depth_at(s: Seq<Seq<char>>, x: Seq<char>, j: int)
    requires
        0 <= j <= s.len(),
        forall|k: int| 0 <= k < j ==> path_depth(#[trigger] s[k]) >= path_depth(x),
        j < s.len() ==> path_depth(s[j]) < path_depth(x),
    ensures
        insert_by_depth(s, x) == s.insert(j, x),
    decreases j,
{
    if j == 0 {
        if s.len() == 0 {
            assert(insert_by_depth(s, x) =~= s.insert(0, x));
        } else {
            assert(path_depth(s[0]) < path_depth(x));
            assert(insert_by_depth(s, x) =~= s.insert(0, x));
        }
    } else {
        assert(path_depth(s[0]) >= path_depth(x));
        let tail = s.drop_first();
        assert(forall|k: int| 0 <= k < tail.len() ==> #[trigger] tail[k] == s[k + 1]);
        lemma_insert_by_depth_at(tail, x, j - 1);
        assert(insert_by_depth(s, x) == seq![s[0]] + tail.insert(j - 1, x));
        assert(seq![s[0]] + tail.insert(j - 1, x) =~= s.insert(j, x));
    }
}

/// Plans the removal of orphaned target directories: every target
/// directory with no source counterpart, ordered by descending depth
/// (subdirectories first), equal depths in target order.
pub fn plan_dir_removals(source_dirs: &Vec<String>, target_dirs: &Vec<String>) -> (plan: Vec<
    String,
>)
    ensures
        plan.deep_view() == sort_by_depth(
            orphan_dirs(source_dirs.deep_view(), target_dirs.deep_view()),
        ),
        sorted_by_depth_desc(plan.deep_view()),
{
    let ghost sdv = source_dirs.deep_view();
    let ghost tdv = target_dirs.deep_view();
    let mut plan: Vec<String> = Vec::new();
    let mut i: usize = 0;
    proof {
        assert(tdv.take(0int) =~= Seq::<Seq<char>>::empty());
    }
    while i < target_dirs.len()
        invariant
            i <= target_dirs.len(),
            sdv == source_dirs.deep_view(),
            tdv == target_dirs.deep_view(),
            tdv.len() == target_dirs.len(),
            plan.deep_view() == sort_by_depth(orphan_dirs(sdv, tdv.take(i as int))),
        decreases target_dirs.len() - i,
    {
        let ghost pre_take = tdv.take(i as int);
        let ghost cur_take = tdv.take(i + 1);
        proof {
            assert(cur_take.drop_last() =~= pre_take);
            assert(cur_take.last() == tdv[i as int]);
            assert(tdv[i as int] == target_dirs@[i as int]@);
        }
        let d = &target_dirs[i];
        if !name_in_list(d, source_dirs) {
            let depth_x = component_count(d.as_str());
            let j = removal_insert_index(&plan, depth_x);
            let ghost pre_plan = plan.deep_view();
            let ghost pre_at = plan@;
            plan.insert(j, d.clone());
            proof {
                assert(plan@ == pre_at.insert(j as int, target_dirs@[i as int]));
                assert(plan.deep_view().len() == plan@.len());
                assert(pre_plan.len() == pre_at.len());
                assert forall|k: int| 0 <= k < plan@.len() implies plan.deep_view()[k]
                    == pre_plan.insert(j as int, tdv[i as int])[k] by {
                    assert(plan.deep_view()[k] == plan@[k]@);
                    if k < j {
                        assert(plan@[k] == pre_at[k]);
                        assert(pre_plan[k] == pre_at[k]@);
                    } else if k == j {
                        assert(plan@[k] == target_dirs@[i as int]);
                    } else {
                        assert(plan@[k] == pre_at[k - 1]);
                        assert(pre_plan[k - 1] == pre_at[k - 1]@);
                    }
                }
                assert(plan.deep_view() =~= pre_plan.insert(j as int, tdv[i as int]));
                lemma_insert_by_depth_at(pre_plan, tdv[i as int], j as int);
                assert(orphan_dirs(sdv, cur_take) == orphan_dirs(sdv, pre_take).push(
                    tdv[i as int],
                ));
                assert(orphan_dirs(sdv, cur_take).drop_last() =~= orphan_dirs(sdv, pre_take));
                assert(plan.deep_view() == sort_by_depth(orphan_dirs(sdv, cur_take)));
            }
        } else {
            proof {
                assert(orphan_dirs(sdv, cur_take) == orphan_dirs(sdv, pre_take));
                assert(plan.deep_view() == sort_by_depth(orphan_dirs(sdv, cur_take)));
            }
        }
        i += 1;
    }
    proof {
        assert(tdv.take(target_dirs.len() as int) =~= tdv);
        lemma_sort_by_depth_sorted(orphan_dirs(sdv, tdv));
    }
    plan
}

/// Every strict ancestor path of a member is a member: what a full walk
/// of a directory tree always yields.
pub open spec fn ancestor_closed(dirs: Seq<Seq<char>>) -> bool {
    forall|i: int, a: Seq<char>|
        0 <= i < dirs.len() && #[trigger] strict_ancestor_path(a, dirs[i]) ==> dirs.contains(a)
}

/// In the removal plan, a directory's subdirectories always stand
/// before the directory itself.
pub proof fn lemma_subdirs_removed_first(
    src: Seq<Seq<char>>,
    tgt: Seq<Seq<char>>,
    i: int,
    j: int,
)
    requires
        0 <= i < sort_by_depth(orphan_dirs(src, tgt)).len(),
        0 <= j < sort_by_depth(orphan_dirs(src, tgt)).len(),
        strict_ancestor_path(
            sort_by_depth(orphan_dirs(src, tgt))[i],
            sort_by_depth(orphan_dirs(src, tgt))[j],
        ),
    ensures
        j < i,
{
    let plan = sort_by_depth(orphan_dirs(src, tgt));
    lemma_sort_by_depth_sorted(orphan_dirs(src, tgt));
    crate::paths::lemma_strict_ancestor_deeper(plan[i], plan[j]);
    if i < j {
        assert(path_depth(plan[i]) >= path_depth(plan[j]));
    }
    if i == j {
        assert(path_depth(plan[i]) < path_depth(plan[j]));
    }
}

/// With a source walk that names every ancestor, a whole orphaned
/// subtree is planned: every target directory strictly below an orphan
/// is itself in the plan (and, by `lemma_subdirs_removed_first`, comes
/// up before it), so removing in plan order empties each directory of
/// orphan subdirectories before its own turn.
pub proof fn lemma_orphan_subtree_planned(
    src: Seq<Seq<char>>,
    tgt: Seq<Seq<char>>,
    a: Seq<char>,
    b: Seq<char>,
)
    requires
        ancestor_closed(src),
        !src.contains(a),
        tgt.contains(b),
        strict_ancestor_path(a, b),
    ensures
        sort_by_depth(orphan_dirs(src, tgt)).contains(b),
{
    if src.contains(b) {
        let i = choose|i: int| 0 <= i < src.len() && src[i] == b;
        assert(strict_ancestor_path(a, src[i]));
        assert(src.contains(a));
    }
    lemma_orphan_dirs_contains(src, tgt, b);
    lemma_sort_by_depth_contains(orphan_dirs(src, tgt), b);
}

} // verus!
