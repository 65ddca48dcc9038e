//! Relative paths as character sequences separated by `/`.
//!
//! A relative path is split into components; the last component is the
//! entry's own name, the ones before it name its ancestor directories.
//! The splitting function is defined one character at a time, so that the
//! executable splitter can be proved against it with a simple loop.

use vstd::prelude::*;

verus! {

/// The separator between path components.
pub open spec fn path_sep() -> char {
    '/'
}

/// Splits a path into its components. The empty path has one empty
/// component; every separator opens a new (initially empty) component.
pub open spec fn split_path(p: Seq<char>) -> Seq<Seq<char>>
    decreases p.len(),
{
    if p.len() == 0 {
        seq![Seq::<char>::empty()]
    } else {
        let rest = split_path(p.drop_last());
        if p.last() == path_sep() {
            rest.push(Seq::<char>::empty())
        } else {
            rest.update(rest.len() - 1, rest.last().push(p.last()))
        }
    }
}

/// A split always yields at least one component.
pub proof fn lemma_split_path_len(p: Seq<char>)
    ensures
        split_path(p).len() >= 1,
    decreases p.len(),
{
    if p.len() != 0 {
        lemma_split_path_len(p.drop_last());
    }
}

/// The name of the entry the path leads to: its last component.
pub open spec fn base_name_of(p: Seq<char>) -> Seq<char> {
    split_path(p).last()
}

/// The names of the directories the path runs through, without the
/// entry's own name.
pub open spec fn ancestor_names_of(p: Seq<char>) -> Seq<Seq<char>> {
    split_path(p).drop_last()
}

/// The number of components of a path.
pub open spec fn path_depth(p: Seq<char>) -> nat {
    split_path(p).len()
}

/// Splits a relative path into its components.
pub fn path_components(p: &str) -> (r: Vec<String>)
    ensures
        r.deep_view() == split_path(p@),
        r.len() >= 1,
{
    let n = p.unicode_len();
    let mut comps: Vec<String> = Vec::new();
    comps.push(String::new());
    let mut start: usize = 0;
    let mut i: usize = 0;
    proof {
        assert(p@.take(0int) =~= Seq::<char>::empty());
        assert(comps.deep_view() =~= split_path(p@.take(0int)));
    }
    while i < n
        invariant
            i <= n,
            start <= i,
            n == p@.len(),
            comps.len() >= 1,
            comps.deep_view() == split_path(p@.take(i as int)),
            comps[comps.len() - 1]@ == p@.subrange(start as int, i as int),
        decreases n - i,
    {
        let ghost pre = p@.take(i as int);
        let ghost cur = p@.take(i + 1);
        proof {
            assert(cur.drop_last() =~= pre);
            assert(cur.last() == p@[i as int]);
        }
        let c = p.get_char(i);
        if c == '/' {
            comps.push(String::new());
            proof {
                assert(comps.deep_view() =~= split_path(pre).push(Seq::<char>::empty()));
                assert(p@.subrange(i + 1, i + 1) =~= Seq::<char>::empty());
            }
            start = i + 1;
        } else {
            let piece = p.substring_char(start, i + 1).to_owned();
            let last = comps.len() - 1;
            comps.set(last, piece);
            proof {
                lemma_split_path_len(pre);
                assert(p@.subrange(start as int, i + 1) =~= p@.subrange(start as int, i as int).push(
                    p@[i as int]));
                assert(comps.deep_view() =~= split_path(pre).update(
                    split_path(pre).len() - 1,
                    split_path(pre).last().push(p@[i as int]),
                ));
            }
        }
        i += 1;
    }
    proof {
        assert(p@.take(n as int) =~= p@);
    }
    comps
}

/// Counts the components of a relative path.
pub fn component_count(p: &str) -> (r: usize)
    ensures
        r == path_depth(p@),
        r >= 1,
{
    let comps = path_components(p);
    comps.len()
}

/// Appends `rel` to the directory `root`, with a separator between them.
pub open spec fn joined_path(root: Seq<char>, rel: Seq<char>) -> Seq<char> {
    root + seq![path_sep()] + rel
}

/// Builds the full path of an entry below `root`.
pub fn join_path(root: &str, rel: &str) -> (r: String)
    ensures
        r@ == joined_path(root@, rel@),
{
    proof {
        reveal_strlit("/");
    }
    let mut out = root.to_owned();
    out.append("/");
    out.append(rel);
    proof {
        assert("/"@ =~= seq![path_sep()]);
    }
    out
}

/// `a` names a directory strictly above `b`: `b` starts with `a` and a
/// separator follows.
pub open spec fn strict_ancestor_path(a: Seq<char>, b: Seq<char>) -> bool {
    &&& a.len() < b.len()
    &&& b.subrange(0, a.len() as int) == a
    &&& b[a.len() as int] == path_sep()
}

/// A strict ancestor has strictly fewer components than its descendant.
pub proof fn lemma_strict_ancestor_deeper(a: Seq<char>, b: Seq<char>)
    requires
        strict_ancestor_path(a, b),
    ensures
        path_depth(a) < path_depth(b),
{
    let tail = b.subrange(a.len() as int + 1, b.len() as int);
    assert(b =~= a + seq![path_sep()] + tail);
    lemma_split_join_depth(a, tail);
    lemma_split_path_len(tail);
    lemma_split_path_len(a);
}

/// Splitting `a + "/" + t` yields the components of `a` followed by the
/// components of `t`.
pub proof fn lemma_split_join_depth(a: Seq<char>, t: Seq<char>)
    ensures
        split_path(joined_path(a, t)) == split_path(a) + split_path(t),
    decreases t.len(),
{
    let j = joined_path(a, t);
    if t.len() == 0 {
        assert(j.drop_last() =~= a);
        assert(j.last() == path_sep());
        assert(split_path(j) =~= split_path(a) + split_path(t));
    } else {
        let j0 = joined_path(a, t.drop_last());
        assert(j.drop_last() =~= j0);
        assert(j.last() == t.last());
        lemma_split_join_depth(a, t.drop_last());
        lemma_split_path_len(t.drop_last());
        lemma_split_path_len(a);
        if t.last() == path_sep() {
            assert(split_path(j) =~= split_path(a) + split_path(t));
        } else {
            assert(split_path(t) == split_path(t.drop_last()).update(
                split_path(t.drop_last()).len() - 1,
                split_path(t.drop_last()).last().push(t.last()),
            ));
            assert(split_path(j) =~= split_path(a) + split_path(t));
        }
    }
}

} // verus!
