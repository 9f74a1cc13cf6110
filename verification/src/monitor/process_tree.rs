//! The process tree: which processes are roots, the rows of the tree in display order
//! with their depths, and the rows that a search keeps.
//!
//! Processes are given by position: `pids[i]` is the pid of process `i` and
//! `parents[i]` the pid of its parent, if it has one.
use vstd::prelude::*;

verus! {

/// Builds and filters process trees.
pub struct ProcessTreeBuilder;

/// `p` is the pid of one of the processes.
pub open spec fn pid_listed(pids: Seq<u32>, p: Option<u32>) -> bool {
    match p {
        Some(q) => exists|j: int| 0 <= j < pids.len() && pids[j] == q,
        None => false,
    }
}

/// The processes among the first `k` that are roots of the tree, in order: those
/// without a parent, or whose parent is not among the processes.
pub open spec fn roots_before(pids: Seq<u32>, parents: Seq<Option<u32>>, k: int) -> Seq<usize>
    decreases k,
{
    if k <= 0 {
        Seq::empty()
    } else {
        let init = roots_before(pids, parents, k - 1);
        if pid_listed(pids, parents[k - 1]) {
            init
        } else {
            init.push((k - 1) as usize)
        }
    }
}

/// The rows of the subtree of process `i` shown at depth `depth`: its own row, then
/// the subtrees of its children (the processes whose parent is its pid) in order, one
/// level deeper. The walk goes at most `fuel` levels down.
pub open spec fn subtree_rows(pids: Seq<u32>, parents: Seq<Option<u32>>, i: int, depth: nat, fuel: nat) -> Seq<(usize, usize)>
    decreases fuel, 1int, 0int,
{
    if fuel == 0 {
        Seq::empty()
    } else {
        seq![(i as usize, depth as usize)] + child_rows(pids, parents, i, depth, (fuel - 1) as nat, parents.len() as int)
    }
}

/// The rows of the subtrees of the children of process `i` among the first `k`
/// processes, one level below `depth`.
pub open spec fn child_rows(pids: Seq<u32>, parents: Seq<Option<u32>>, i: int, depth: nat, fuel: nat, k: int) -> Seq<(usize, usize)>
    decreases fuel, 2int, k,
{
    if k <= 0 {
        Seq::empty()
    } else {
        child_rows(pids, parents, i, depth, fuel, k - 1) + if parents[k - 1] == Some(pids[i]) {
            subtree_rows(pids, parents, k - 1, depth + 1, fuel)
        } else {
            Seq::empty()
        }
    }
}

/// The rows of the trees of `roots` (among the first `k`), in order, each walked at most
/// as deep as there are processes.
pub open spec fn forest_rows(pids: Seq<u32>, parents: Seq<Option<u32>>, roots: Seq<usize>, k: int) -> Seq<(usize, usize)>
    decreases k,
{
    if k <= 0 {
        Seq::empty()
    } else {
        forest_rows(pids, parents, roots, k - 1) + subtree_rows(pids, parents, roots[k - 1] as int, 0, pids.len())
    }
}

/// Row `k` has its parent's row above it: a row one level shallower, for the
/// process's parent, with no shallower row between them.
pub open spec fn has_parent_row(rows: Seq<(usize, usize)>, pids: Seq<u32>, parents: Seq<Option<u32>>, k: int) -> bool {
    exists|j: int|
        0 <= j < k && #[trigger] rows[j].1 + 1 == rows[k].1 && parents[rows[k].0 as int] == Some(
            pids[rows[j].0 as int],
        ) && forall|m: int| j < m < k ==> #[trigger] rows[m].1 >= rows[k].1
}

/// The rows of a tree shown from process `i` at depth `d`: it comes first, and every
/// other row is deeper and has its parent's row above it.
pub open spec fn subtree_shaped(rows: Seq<(usize, usize)>, pids: Seq<u32>, parents: Seq<Option<u32>>, i: int, d: nat) -> bool {
    &&& rows.len() > 0 ==> rows[0].0 == i && rows[0].1 == d
    &&& forall|k: int| 1 <= k < rows.len() ==> #[trigger] rows[k].1 > d && has_parent_row(rows, pids, parents, k)
}

/// The rows of the trees of the children of process `i` shown below depth `d`.
pub open spec fn children_shaped(rows: Seq<(usize, usize)>, pids: Seq<u32>, parents: Seq<Option<u32>>, i: int, d: nat) -> bool {
    forall|m: int|
        0 <= m < rows.len() ==> {
            &&& #[trigger] rows[m].1 >= d + 1
            &&& rows[m].1 == d + 1 ==> parents[rows[m].0 as int] == Some(pids[i])
            &&& rows[m].1 > d + 1 ==> has_parent_row(rows, pids, parents, m)
        }
}

/// The rows of a forest: the top rows are roots, and every other row has its parent's
/// row above it.
pub open spec fn forest_shaped(rows: Seq<(usize, usize)>, pids: Seq<u32>, parents: Seq<Option<u32>>, roots: Seq<usize>) -> bool {
    forall|k: int|
        0 <= k < rows.len() ==> {
            &&& #[trigger] rows[k].1 == 0 ==> roots.contains(rows[k].0)
            &&& rows[k].1 > 0 ==> has_parent_row(rows, pids, parents, k)
        }
}

proof fn lemma_parent_row_after(a: Seq<(usize, usize)>, b: Seq<(usize, usize)>, pids: Seq<u32>, parents: Seq<Option<u32>>, t: int)
    requires
        0 <= t < b.len(),
        has_parent_row(b, pids, parents, t),
    ensures
        has_parent_row(a + b, pids, parents, a.len() + t),
{
    let j = choose|j: int|
        0 <= j < t && #[trigger] b[j].1 + 1 == b[t].1 && parents[b[t].0 as int] == Some(pids[b[j].0 as int])
            && forall|m: int| j < m < t ==> #[trigger] b[m].1 >= b[t].1;
    let s = a + b;
    let k = a.len() + t;
    assert(s[a.len() + j] == b[j]);
    assert(s[k] == b[t]);
    assert forall|m: int| a.len() + j < m < k implies #[trigger] s[m].1 >= s[k].1 by {
        assert(s[m] == b[m - a.len()]);
    }
    assert(0 <= a.len() + j < k && s[a.len() + j].1 + 1 == s[k].1);
}

proof fn lemma_parent_row_before(a: Seq<(usize, usize)>, b: Seq<(usize, usize)>, pids: Seq<u32>, parents: Seq<Option<u32>>, k: int)
    requires
        0 <= k < a.len(),
        has_parent_row(a, pids, parents, k),
    ensures
        has_parent_row(a + b, pids, parents, k),
{
    let j = choose|j: int|
        0 <= j < k && #[trigger] a[j].1 + 1 == a[k].1 && parents[a[k].0 as int] == Some(pids[a[j].0 as int])
            && forall|m: int| j < m < k ==> #[trigger] a[m].1 >= a[k].1;
    let s = a + b;
    assert(s[j] == a[j]);
    assert(s[k] == a[k]);
    assert forall|m: int| j < m < k implies #[trigger] s[m].1 >= s[k].1 by {
        assert(s[m] == a[m]);
    }
}

proof fn lemma_subtree_shaped(pids: Seq<u32>, parents: Seq<Option<u32>>, i: int, d: nat, fuel: nat)
    requires
        pids.len() == parents.len() <= usize::MAX,
        0 <= i < pids.len(),
        d + fuel <= pids.len(),
    ensures
        subtree_shaped(subtree_rows(pids, parents, i, d, fuel), pids, parents, i, d),
    decreases fuel, 1int, 0int,
{
    if fuel > 0 {
        let c = child_rows(pids, parents, i, d, (fuel - 1) as nat, parents.len() as int);
        lemma_children_shaped(pids, parents, i, d, (fuel - 1) as nat, parents.len() as int);
        let head = seq![(i as usize, d as usize)];
        let s = head + c;
        assert(s == subtree_rows(pids, parents, i, d, fuel));
        assert forall|k: int| 1 <= k < s.len() implies #[trigger] s[k].1 > d && has_parent_row(s, pids, parents, k) by {
            let m = k - 1;
            assert(s[k] == c[m]);
            if c[m].1 == d + 1 {
                assert(s[0] == (i as usize, d as usize));
                assert forall|x: int| 0 < x < k implies #[trigger] s[x].1 >= s[k].1 by {
                    assert(s[x] == c[x - 1]);
                }
                assert(0 <= 0 < k && s[0].1 + 1 == s[k].1);
            } else {
                lemma_parent_row_after(head, c, pids, parents, m);
            }
        }
    }
}

proof fn lemma_children_shaped(pids: Seq<u32>, parents: Seq<Option<u32>>, i: int, d: nat, fuel: nat, k: int)
    requires
        pids.len() == parents.len() <= usize::MAX,
        0 <= i < pids.len(),
        k <= pids.len(),
        d + 1 + fuel <= pids.len(),
    ensures
        children_shaped(child_rows(pids, parents, i, d, fuel, k), pids, parents, i, d),
    decreases fuel, 2int, k,
{
    if k > 0 {
        let a = child_rows(pids, parents, i, d, fuel, k - 1);
        lemma_children_shaped(pids, parents, i, d, fuel, k - 1);
        if parents[k - 1] == Some(pids[i]) {
            let b = subtree_rows(pids, parents, k - 1, d + 1, fuel);
            lemma_subtree_shaped(pids, parents, k - 1, d + 1, fuel);
            let s = a + b;
            assert(s == child_rows(pids, parents, i, d, fuel, k));
            assert forall|m: int| 0 <= m < s.len() implies {
                &&& #[trigger] s[m].1 >= d + 1
                &&& s[m].1 == d + 1 ==> parents[s[m].0 as int] == Some(pids[i])
                &&& s[m].1 > d + 1 ==> has_parent_row(s, pids, parents, m)
            } by {
                if m < a.len() {
                    assert(s[m] == a[m]);
                    if a[m].1 > d + 1 {
                        lemma_parent_row_before(a, b, pids, parents, m);
                    }
                } else {
                    let t = m - a.len();
                    assert(s[m] == b[t]);
                    if t > 0 {
                        lemma_parent_row_after(a, b, pids, parents, t);
                    }
                }
            }
        } else {
            assert(child_rows(pids, parents, i, d, fuel, k) == a + Seq::<(usize, usize)>::empty());
            assert(a + Seq::<(usize, usize)>::empty() == a);
        }
    }
}

/// The tree is hierarchical: in the rows `build_tree` gives, every row with a depth
/// has its parent's row above it (one level shallower, with no shallower row between),
/// and every top row is one of the roots.
pub proof fn lemma_tree_rows_hierarchical(pids: Seq<u32>, parents: Seq<Option<u32>>, roots: Seq<usize>, k: int)
    requires
        pids.len() == parents.len() <= usize::MAX,
        forall|x: int| 0 <= x < roots.len() ==> #[trigger] roots[x] < pids.len(),
        0 <= k <= roots.len(),
    ensures
        forest_shaped(forest_rows(pids, parents, roots, k), pids, parents, roots),
    decreases k,
{
    if k > 0 {
        let a = forest_rows(pids, parents, roots, k - 1);
        lemma_tree_rows_hierarchical(pids, parents, roots, k - 1);
        let r = roots[k - 1];
        assert(r < pids.len());
        let b = subtree_rows(pids, parents, r as int, 0, pids.len());
        lemma_subtree_shaped(pids, parents, r as int, 0, pids.len());
        let s = a + b;
        assert(s == forest_rows(pids, parents, roots, k));
        assert forall|m: int| 0 <= m < s.len() implies {
            &&& #[trigger] s[m].1 == 0 ==> roots.contains(s[m].0)
            &&& s[m].1 > 0 ==> has_parent_row(s, pids, parents, m)
        } by {
            if m < a.len() {
                assert(s[m] == a[m]);
                if a[m].1 > 0 {
                    lemma_parent_row_before(a, b, pids, parents, m);
                }
            } else {
                let t = m - a.len();
                assert(s[m] == b[t]);
                if t == 0 {
                    assert(roots[k - 1] == s[m].0);
                } else {
                    lemma_parent_row_after(a, b, pids, parents, t);
                }
            }
        }
    }
}

/// Step `j` of `path` goes from a process to one of its children.
pub open spec fn step_ok(pids: Seq<u32>, parents: Seq<Option<u32>>, path: Seq<int>, j: int) -> bool {
    0 <= path[j + 1] < parents.len() && parents[path[j + 1]] == Some(pids[path[j]])
}

/// Each process of `path` after the first is a child of the one before it.
pub open spec fn descent(pids: Seq<u32>, parents: Seq<Option<u32>>, path: Seq<int>) -> bool {
    forall|j: int| 0 <= j < path.len() - 1 ==> #[trigger] step_ok(pids, parents, path, j)
}

/// Process `c` lies `s` levels below process `i`: a descent of `s` steps leads from `i`
/// to `c`.
pub open spec fn below(pids: Seq<u32>, parents: Seq<Option<u32>>, c: int, i: int, s: nat) -> bool {
    exists|path: Seq<int>|
        path.len() == s + 1 && path[0] == i && path[s as int] == c && #[trigger] descent(pids, parents, path)
}

/// A descent from `k`, a child of `i`, extends to a descent from `i` one step longer.
proof fn lemma_below_child(pids: Seq<u32>, parents: Seq<Option<u32>>, c: int, i: int, k: int, s: nat)
    requires
        0 <= k < parents.len(),
        parents[k] == Some(pids[i]),
        below(pids, parents, c, k, s),
    ensures
        below(pids, parents, c, i, s + 1),
{
    let p = choose|path: Seq<int>|
        path.len() == s + 1 && path[0] == k && path[s as int] == c && #[trigger] descent(pids, parents, path);
    let q = seq![i] + p;
    assert forall|j: int| 0 <= j < q.len() - 1 implies #[trigger] step_ok(pids, parents, q, j) by {
        assert(q[j + 1] == p[j]);
        if j > 0 {
            assert(q[j] == p[j - 1]);
            assert(step_ok(pids, parents, p, j - 1));
        }
    }
    assert(q[(s + 1) as int] == p[s as int]);
    assert(descent(pids, parents, q));
}

/// The first step of a descent of at least one step from `i`.
proof fn lemma_below_first_step(pids: Seq<u32>, parents: Seq<Option<u32>>, c: int, i: int, s: nat) -> (k: int)
    requires
        s > 0,
        below(pids, parents, c, i, s),
    ensures
        0 <= k < parents.len(),
        parents[k] == Some(pids[i]),
        below(pids, parents, c, k, (s - 1) as nat),
{
    let p = choose|path: Seq<int>|
        path.len() == s + 1 && path[0] == i && path[s as int] == c && #[trigger] descent(pids, parents, path);
    assert(step_ok(pids, parents, p, 0));
    let q = p.drop_first();
    assert forall|j: int| 0 <= j < q.len() - 1 implies #[trigger] step_ok(pids, parents, q, j) by {
        assert(q[j + 1] == p[j + 2] && q[j] == p[j + 1]);
        assert(step_ok(pids, parents, p, j + 1));
    }
    assert(descent(pids, parents, q));
    assert(q[(s - 1) as int] == c);
    p[1]
}

/// A process below a listed process is itself listed.
proof fn lemma_below_in_range(pids: Seq<u32>, parents: Seq<Option<u32>>, c: int, i: int, s: nat)
    requires
        pids.len() == parents.len(),
        0 <= i < pids.len(),
        below(pids, parents, c, i, s),
    ensures
        0 <= c < pids.len(),
{
    let p = choose|path: Seq<int>|
        path.len() == s + 1 && path[0] == i && path[s as int] == c && #[trigger] descent(pids, parents, path);
    if s > 0 {
        assert(step_ok(pids, parents, p, s - 1));
    }
}

proof fn lemma_subtree_rows_below(pids: Seq<u32>, parents: Seq<Option<u32>>, i: int, d: nat, fuel: nat)
    requires
        pids.len() == parents.len() <= usize::MAX,
        0 <= i < pids.len(),
        d + fuel <= pids.len(),
    ensures
        forall|m: int|
            0 <= m < subtree_rows(pids, parents, i, d, fuel).len() ==> {
                let row = #[trigger] subtree_rows(pids, parents, i, d, fuel)[m];
                &&& row.1 >= d
                &&& row.1 - d < fuel
                &&& below(pids, parents, row.0 as int, i, (row.1 - d) as nat)
            },
    decreases fuel, 1int, 0int,
{
    if fuel > 0 {
        let c = child_rows(pids, parents, i, d, (fuel - 1) as nat, parents.len() as int);
        lemma_child_rows_below(pids, parents, i, d, (fuel - 1) as nat, parents.len() as int);
        let head = seq![(i as usize, d as usize)];
        let t = head + c;
        assert(t == subtree_rows(pids, parents, i, d, fuel));
        assert forall|m: int| 0 <= m < t.len() implies {
            let row = #[trigger] t[m];
            &&& row.1 >= d
            &&& row.1 - d < fuel
            &&& below(pids, parents, row.0 as int, i, (row.1 - d) as nat)
        } by {
            if m > 0 {
                assert(t[m] == c[m - 1]);
            } else {
                let path = seq![i];
                assert(descent(pids, parents, path));
                assert(path.len() == 0 + 1 && path[0] == i && path[0int] == i);
            }
        }
    }
}

proof fn lemma_child_rows_below(pids: Seq<u32>, parents: Seq<Option<u32>>, i: int, d: nat, fuel: nat, k: int)
    requires
        pids.len() == parents.len() <= usize::MAX,
        0 <= i < pids.len(),
        k <= pids.len(),
        d + 1 + fuel <= pids.len(),
    ensures
        forall|m: int|
            0 <= m < child_rows(pids, parents, i, d, fuel, k).len() ==> {
                let row = #[trigger] child_rows(pids, parents, i, d, fuel, k)[m];
                &&& row.1 >= d + 1
                &&& row.1 - d <= fuel
                &&& below(pids, parents, row.0 as int, i, (row.1 - d) as nat)
            },
    decreases fuel, 2int, k,
{
    if k > 0 {
        let a = child_rows(pids, parents, i, d, fuel, k - 1);
        lemma_child_rows_below(pids, parents, i, d, fuel, k - 1);
        if parents[k - 1] == Some(pids[i]) {
            let b = subtree_rows(pids, parents, k - 1, d + 1, fuel);
            lemma_subtree_rows_below(pids, parents, k - 1, d + 1, fuel);
            let t = a + b;
            assert(t == child_rows(pids, parents, i, d, fuel, k));
            assert forall|m: int| 0 <= m < t.len() implies {
                let row = #[trigger] t[m];
                &&& row.1 >= d + 1
                &&& row.1 - d <= fuel
                &&& below(pids, parents, row.0 as int, i, (row.1 - d) as nat)
            } by {
                if m < a.len() {
                    assert(t[m] == a[m]);
                } else {
                    let row = b[m - a.len()];
                    assert(t[m] == row);
                    assert(row.1 >= d + 1 && row.1 - (d + 1) < fuel && below(
                        pids,
                        parents,
                        row.0 as int,
                        k - 1,
                        (row.1 - (d + 1)) as nat,
                    ));
                    lemma_below_child(pids, parents, row.0 as int, i, k - 1, (row.1 - (d + 1)) as nat);
                    assert((row.1 - (d + 1)) as nat + 1 == (row.1 - d) as nat);
                }
            }
        } else {
            assert(child_rows(pids, parents, i, d, fuel, k) == a + Seq::<(usize, usize)>::empty());
            assert(a + Seq::<(usize, usize)>::empty() == a);
        }
    }
}

proof fn lemma_child_rows_include(pids: Seq<u32>, parents: Seq<Option<u32>>, i: int, d: nat, fuel: nat, kk: int, k: int, x: (usize, usize))
    requires
        0 <= k < kk <= parents.len(),
        parents[k] == Some(pids[i]),
        subtree_rows(pids, parents, k, d + 1, fuel).contains(x),
    ensures
        child_rows(pids, parents, i, d, fuel, kk).contains(x),
    decreases kk,
{
    let a = child_rows(pids, parents, i, d, fuel, kk - 1);
    if k == kk - 1 {
        let b = subtree_rows(pids, parents, k, d + 1, fuel);
        let w = choose|w: int| 0 <= w < b.len() && b[w] == x;
        assert((a + b)[a.len() + w] == x);
        assert(child_rows(pids, parents, i, d, fuel, kk) == a + b);
    } else {
        lemma_child_rows_include(pids, parents, i, d, fuel, kk - 1, k, x);
        let w = choose|w: int| 0 <= w < a.len() && a[w] == x;
        let t = child_rows(pids, parents, i, d, fuel, kk);
        if parents[kk - 1] == Some(pids[i]) {
            let b = subtree_rows(pids, parents, kk - 1, d + 1, fuel);
            assert(t == a + b);
            assert((a + b)[w] == x);
        } else {
            assert(t == a + Seq::<(usize, usize)>::empty());
            assert((a + Seq::<(usize, usize)>::empty())[w] == x);
        }
    }
}

proof fn lemma_subtree_has(pids: Seq<u32>, parents: Seq<Option<u32>>, i: int, d: nat, fuel: nat, c: int, s: nat)
    requires
        pids.len() == parents.len() <= usize::MAX,
        0 <= i < pids.len(),
        0 <= c < pids.len(),
        d + fuel <= pids.len(),
        s < fuel,
        below(pids, parents, c, i, s),
    ensures
        subtree_rows(pids, parents, i, d, fuel).contains((c as usize, (d + s) as usize)),
    decreases s,
{
    let head = seq![(i as usize, d as usize)];
    let ch = child_rows(pids, parents, i, d, (fuel - 1) as nat, parents.len() as int);
    assert(subtree_rows(pids, parents, i, d, fuel) == head + ch);
    if s == 0 {
        assert((head + ch)[0] == (c as usize, (d + s) as usize));
    } else {
        let k = lemma_below_first_step(pids, parents, c, i, s);
        lemma_subtree_has(pids, parents, k, d + 1, (fuel - 1) as nat, c, (s - 1) as nat);
        assert((d + 1 + (s - 1)) as usize == (d + s) as usize);
        lemma_child_rows_include(pids, parents, i, d, (fuel - 1) as nat, parents.len() as int, k, (c as usize, (d + s) as usize));
        let w = choose|w: int| 0 <= w < ch.len() && ch[w] == (c as usize, (d + s) as usize);
        assert((head + ch)[1 + w] == (c as usize, (d + s) as usize));
    }
}

/// The tree shows exactly the descendants of its roots: process `c` appears at depth
/// `s` in the rows `build_tree` gives for `roots` if and only if it lies `s` levels
/// below one of them, with `s` below the number of processes.
pub proof fn lemma_tree_rows_are_descendants(pids: Seq<u32>, parents: Seq<Option<u32>>, roots: Seq<usize>, k: int, c: usize, s: usize)
    requires
        pids.len() == parents.len() <= usize::MAX,
        forall|x: int| 0 <= x < roots.len() ==> #[trigger] roots[x] < pids.len(),
        0 <= k <= roots.len(),
    ensures
        forest_rows(pids, parents, roots, k).contains((c, s)) <==> (s < pids.len() && exists|x: int|
            0 <= x < k && #[trigger] below(pids, parents, c as int, roots[x] as int, s as nat)),
    decreases k,
{
    if k > 0 {
        lemma_tree_rows_are_descendants(pids, parents, roots, k - 1, c, s);
        let a = forest_rows(pids, parents, roots, k - 1);
        let r = roots[k - 1];
        let b = subtree_rows(pids, parents, r as int, 0, pids.len());
        let t = a + b;
        assert(t == forest_rows(pids, parents, roots, k));
        lemma_subtree_rows_below(pids, parents, r as int, 0, pids.len());
        if t.contains((c, s)) {
            let w = choose|w: int| 0 <= w < t.len() && t[w] == (c, s);
            if w >= a.len() {
                assert(b[w - a.len()] == (c, s));
                assert(below(pids, parents, c as int, roots[k - 1] as int, s as nat));
            } else {
                assert(a[w] == (c, s));
                assert(a.contains((c, s)));
            }
        }
        if s < pids.len() && exists|x: int| 0 <= x < k && #[trigger] below(pids, parents, c as int, roots[x] as int, s as nat) {
            let x = choose|x: int| 0 <= x < k && #[trigger] below(pids, parents, c as int, roots[x] as int, s as nat);
            if x == k - 1 {
                lemma_below_in_range(pids, parents, c as int, r as int, s as nat);
                lemma_subtree_has(pids, parents, r as int, 0, pids.len(), c as int, s as nat);
                let w = choose|w: int| 0 <= w < b.len() && b[w] == (c, s);
                assert(t[a.len() + w] == (c, s));
            } else {
                assert(a.contains((c, s)));
                let w = choose|w: int| 0 <= w < a.len() && a[w] == (c, s);
                assert(t[w] == (c, s));
            }
        }
    }
}

/// No two processes share a pid.
pub open spec fn distinct_pids(pids: Seq<u32>) -> bool {
    forall|a: int, b: int| 0 <= a < pids.len() && 0 <= b < pids.len() && a != b ==> #[trigger] pids[a] != #[trigger] pids[b]
}

/// Process `i` does not lie below itself: no chain of parents leads from it back to it.
pub open spec fn off_cycle(pids: Seq<u32>, parents: Seq<Option<u32>>, i: int) -> bool {
    forall|t: nat| t > 0 ==> !#[trigger] below(pids, parents, i, i, t)
}

/// Going up from one process, the chain of parents is unique: if `c` lies `t` levels
/// below `a` and `u >= t` levels below `b`, then `a` lies `u - t` levels below `b`.
proof fn lemma_chain_unique(pids: Seq<u32>, parents: Seq<Option<u32>>, c: int, a: int, t: nat, b: int, u: nat)
    requires
        pids.len() == parents.len(),
        distinct_pids(pids),
        0 <= a < pids.len(),
        0 <= b < pids.len(),
        t <= u,
        below(pids, parents, c, a, t),
        below(pids, parents, c, b, u),
    ensures
        below(pids, parents, a, b, (u - t) as nat),
{
    let p = choose|path: Seq<int>|
        path.len() == t + 1 && path[0] == a && path[t as int] == c && #[trigger] descent(pids, parents, path);
    let q = choose|path: Seq<int>|
        path.len() == u + 1 && path[0] == b && path[u as int] == c && #[trigger] descent(pids, parents, path);
    let off = u - t;
    // Walking down from the end, the two paths agree.
    assert forall|j: int| 0 <= j <= t implies #[trigger] p[j] == q[j + off] by {
        lemma_paths_agree(pids, parents, p, q, t, u, (t - j) as nat);
    }
    let r = q.subrange(0, off + 1);
    assert forall|j: int| 0 <= j < r.len() - 1 implies #[trigger] step_ok(pids, parents, r, j) by {
        assert(step_ok(pids, parents, q, j));
        assert(r[j] == q[j] && r[j + 1] == q[j + 1]);
    }
    assert(descent(pids, parents, r));
    assert(r[off] == q[off]);
    assert(p[0] == q[0 + off]);
}

/// The two paths of `lemma_chain_unique` agree `k` steps up from their common end.
proof fn lemma_paths_agree(pids: Seq<u32>, parents: Seq<Option<u32>>, p: Seq<int>, q: Seq<int>, t: nat, u: nat, k: nat)
    requires
        pids.len() == parents.len(),
        distinct_pids(pids),
        t <= u,
        k <= t,
        p.len() == t + 1,
        q.len() == u + 1,
        p[t as int] == q[u as int],
        0 <= p[0] < pids.len(),
        0 <= q[0] < pids.len(),
        descent(pids, parents, p),
        descent(pids, parents, q),
    ensures
        p[t - k] == q[u - k],
    decreases k,
{
    if k > 0 {
        lemma_paths_agree(pids, parents, p, q, t, u, (k - 1) as nat);
        let j = t - k;
        let jq = u - k;
        assert(step_ok(pids, parents, p, j));
        assert(step_ok(pids, parents, q, jq));
        assert(p[j + 1] == q[jq + 1]);
        assert(pids[p[j]] == pids[q[jq]]);
        if j > 0 {
            assert(step_ok(pids, parents, p, j - 1));
        }
        if jq > 0 {
            assert(step_ok(pids, parents, q, jq - 1));
        }
        assert(0 <= p[j] < pids.len());
        assert(0 <= q[jq] < pids.len());
    }
}

/// A root does not lie below any process.
proof fn lemma_root_not_below(pids: Seq<u32>, parents: Seq<Option<u32>>, r: int, x: int, s: nat)
    requires
        pids.len() == parents.len(),
        0 <= r < pids.len(),
        0 <= x < pids.len(),
        !pid_listed(pids, parents[r]),
        s > 0,
    ensures
        !below(pids, parents, r, x, s),
{
    if below(pids, parents, r, x, s) {
        let p = choose|path: Seq<int>|
            path.len() == s + 1 && path[0] == x && path[s as int] == r && #[trigger] descent(pids, parents, path);
        assert(step_ok(pids, parents, p, s - 1));
        let w = p[s - 1];
        if s - 1 > 0 {
            assert(step_ok(pids, parents, p, s - 2));
        }
        assert(parents[r] == Some(pids[w]));
        assert(0 <= w < pids.len()) by {
            if s - 1 > 0 {
                assert(step_ok(pids, parents, p, s - 2));
            }
        }
        assert(pids[w] == pids[w]);
    }
}

/// A child of a process off every cycle is off every cycle too (pids distinct).
proof fn lemma_off_cycle_child(pids: Seq<u32>, parents: Seq<Option<u32>>, i: int, k: int)
    requires
        pids.len() == parents.len(),
        distinct_pids(pids),
        0 <= i < pids.len(),
        0 <= k < pids.len(),
        parents[k] == Some(pids[i]),
        off_cycle(pids, parents, i),
    ensures
        off_cycle(pids, parents, k),
{
    assert forall|t: nat| t > 0 implies !#[trigger] below(pids, parents, k, k, t) by {
        if below(pids, parents, k, k, t) {
            // The last step of the cycle enters `k` from its parent, which is `i`.
            let p = choose|path: Seq<int>|
                path.len() == t + 1 && path[0] == k && path[t as int] == k && #[trigger] descent(pids, parents, path);
            assert(step_ok(pids, parents, p, t - 1));
            let w = p[t - 1];
            assert(0 <= w < pids.len()) by {
                if t - 1 > 0 {
                    assert(step_ok(pids, parents, p, t - 2));
                }
            }
            assert(pids[w] == pids[i]);
            assert(w == i);
            // Then `i`, `k`, and the cycle up to `i` again, is a cycle through `i`.
            let q = seq![i] + p.subrange(0, t as int);
            assert forall|j: int| 0 <= j < q.len() - 1 implies #[trigger] step_ok(pids, parents, q, j) by {
                if j == 0 {
                    assert(q[1] == p[0]);
                } else {
                    assert(q[j] == p[j - 1] && q[j + 1] == p[j]);
                    assert(step_ok(pids, parents, p, j - 1));
                }
            }
            assert(descent(pids, parents, q));
            assert(q[t as int] == p[t - 1]);
            assert(below(pids, parents, i, i, t));
        }
    }
}

/// A root is off every cycle.
proof fn lemma_root_off_cycle(pids: Seq<u32>, parents: Seq<Option<u32>>, r: int)
    requires
        pids.len() == parents.len(),
        0 <= r < pids.len(),
        !pid_listed(pids, parents[r]),
    ensures
        off_cycle(pids, parents, r),
{
    assert forall|t: nat| t > 0 implies !#[trigger] below(pids, parents, r, r, t) by {
        lemma_root_not_below(pids, parents, r, r, t);
    }
}

/// Each row of the children's subtrees lies below one of the children, one level
/// deeper than `d` counts for the child itself.
proof fn lemma_child_rows_from_child(pids: Seq<u32>, parents: Seq<Option<u32>>, i: int, d: nat, fuel: nat, kk: int, m: int) -> (k: int)
    requires
        pids.len() == parents.len() <= usize::MAX,
        0 <= i < pids.len(),
        kk <= pids.len(),
        d + 1 + fuel <= pids.len(),
        0 <= m < child_rows(pids, parents, i, d, fuel, kk).len(),
    ensures
        0 <= k < kk,
        parents[k] == Some(pids[i]),
        child_rows(pids, parents, i, d, fuel, kk)[m].1 >= d + 1,
        below(pids, parents, child_rows(pids, parents, i, d, fuel, kk)[m].0 as int, k, (child_rows(pids, parents, i, d, fuel, kk)[m].1 - (d + 1)) as nat),
    decreases kk,
{
    let a = child_rows(pids, parents, i, d, fuel, kk - 1);
    if m < a.len() {
        let k = lemma_child_rows_from_child(pids, parents, i, d, fuel, kk - 1, m);
        if parents[kk - 1] == Some(pids[i]) {
            let b = subtree_rows(pids, parents, kk - 1, d + 1, fuel);
            assert(child_rows(pids, parents, i, d, fuel, kk) == a + b);
            assert((a + b)[m] == a[m]);
        } else {
            assert(child_rows(pids, parents, i, d, fuel, kk) == a + Seq::<(usize, usize)>::empty());
            assert((a + Seq::<(usize, usize)>::empty())[m] == a[m]);
        }
        k
    } else {
        if parents[kk - 1] == Some(pids[i]) {
            let b = subtree_rows(pids, parents, kk - 1, d + 1, fuel);
            assert(child_rows(pids, parents, i, d, fuel, kk) == a + b);
            lemma_subtree_rows_below(pids, parents, kk - 1, d + 1, fuel);
            assert((a + b)[m] == b[m - a.len()]);
        } else {
            assert(child_rows(pids, parents, i, d, fuel, kk) == a + Seq::<(usize, usize)>::empty());
        }
        kk - 1
    }
}

proof fn lemma_concat_no_dup(a: Seq<(usize, usize)>, b: Seq<(usize, usize)>)
    requires
        a.no_duplicates(),
        b.no_duplicates(),
        a.disjoint(b),
    ensures
        (a + b).no_duplicates(),
{
    let s = a + b;
    assert forall|x: int, y: int| 0 <= x < s.len() && 0 <= y < s.len() && x != y implies s[x] != s[y] by {
        if x < a.len() && y < a.len() {
            assert(s[x] == a[x] && s[y] == a[y]);
        } else if x >= a.len() && y >= a.len() {
            assert(s[x] == b[x - a.len()] && s[y] == b[y - a.len()]);
        } else if x < a.len() {
            assert(s[x] == a[x] && s[y] == b[y - a.len()]);
        } else {
            assert(s[y] == a[y] && s[x] == b[x - a.len()]);
        }
    }
}

proof fn lemma_subtree_no_dup(pids: Seq<u32>, parents: Seq<Option<u32>>, i: int, d: nat, fuel: nat)
    requires
        pids.len() == parents.len() <= usize::MAX,
        distinct_pids(pids),
        0 <= i < pids.len(),
        d + fuel <= pids.len(),
        off_cycle(pids, parents, i),
    ensures
        subtree_rows(pids, parents, i, d, fuel).no_duplicates(),
    decreases fuel, 1int, 0int,
{
    if fuel > 0 {
        let c = child_rows(pids, parents, i, d, (fuel - 1) as nat, parents.len() as int);
        lemma_child_rows_no_dup(pids, parents, i, d, (fuel - 1) as nat, parents.len() as int);
        lemma_child_rows_below(pids, parents, i, d, (fuel - 1) as nat, parents.len() as int);
        let head = seq![(i as usize, d as usize)];
        assert(head.disjoint(c)) by {
            assert forall|x: int, y: int| 0 <= x < head.len() && 0 <= y < c.len() implies head[x] != c[y] by {
                assert(c[y].1 >= d + 1);
            }
        }
        lemma_concat_no_dup(head, c);
        assert(subtree_rows(pids, parents, i, d, fuel) == head + c);
    }
}

proof fn lemma_child_rows_no_dup(pids: Seq<u32>, parents: Seq<Option<u32>>, i: int, d: nat, fuel: nat, kk: int)
    requires
        pids.len() == parents.len() <= usize::MAX,
        distinct_pids(pids),
        0 <= i < pids.len(),
        kk <= pids.len(),
        d + 1 + fuel <= pids.len(),
        off_cycle(pids, parents, i),
    ensures
        child_rows(pids, parents, i, d, fuel, kk).no_duplicates(),
    decreases fuel, 2int, kk,
{
    if kk > 0 {
        let a = child_rows(pids, parents, i, d, fuel, kk - 1);
        lemma_child_rows_no_dup(pids, parents, i, d, fuel, kk - 1);
        if parents[kk - 1] == Some(pids[i]) {
            let b = subtree_rows(pids, parents, kk - 1, d + 1, fuel);
            lemma_off_cycle_child(pids, parents, i, kk - 1);
            lemma_subtree_no_dup(pids, parents, kk - 1, d + 1, fuel);
            lemma_subtree_rows_below(pids, parents, kk - 1, d + 1, fuel);
            assert(a.disjoint(b)) by {
                assert forall|x: int, y: int| 0 <= x < a.len() && 0 <= y < b.len() implies a[x] != b[y] by {
                    if a[x] == b[y] {
                        let k = lemma_child_rows_from_child(pids, parents, i, d, fuel, kk - 1, x);
                        let row = a[x];
                        assert(below(pids, parents, row.0 as int, kk - 1, (row.1 - (d + 1)) as nat));
                        lemma_chain_unique(
                            pids,
                            parents,
                            row.0 as int,
                            k,
                            (row.1 - (d + 1)) as nat,
                            kk - 1,
                            (row.1 - (d + 1)) as nat,
                        );
                    }
                }
            }
            lemma_concat_no_dup(a, b);
            assert(child_rows(pids, parents, i, d, fuel, kk) == a + b);
        } else {
            assert(child_rows(pids, parents, i, d, fuel, kk) == a + Seq::<(usize, usize)>::empty());
            assert(a + Seq::<(usize, usize)>::empty() == a);
        }
    }
}

/// The roots that `root_positions` finds are distinct, listed, and have no listed
/// parent.
pub proof fn lemma_root_positions_are_roots(pids: Seq<u32>, parents: Seq<Option<u32>>, k: int)
    requires
        0 <= k <= parents.len() <= usize::MAX,
    ensures
        roots_before(pids, parents, k).no_duplicates(),
        forall|x: int| 0 <= x < roots_before(pids, parents, k).len() ==> {
            let r = #[trigger] roots_before(pids, parents, k)[x];
            &&& r < k
            &&& !pid_listed(pids, parents[r as int])
        },
    decreases k,
{
    if k > 0 {
        lemma_root_positions_are_roots(pids, parents, k - 1);
        let a = roots_before(pids, parents, k - 1);
        if !pid_listed(pids, parents[k - 1]) {
            let b = a.push((k - 1) as usize);
            assert(roots_before(pids, parents, k) == b);
            assert forall|x: int, y: int| 0 <= x < b.len() && 0 <= y < b.len() && x != y implies b[x] != b[y] by {
                if x < a.len() && y < a.len() {
                    assert(b[x] == a[x] && b[y] == a[y]);
                } else if x < a.len() {
                    assert(b[x] == a[x] && a[x] < k - 1);
                } else {
                    assert(b[y] == a[y] && a[y] < k - 1);
                }
            }
            assert forall|x: int| 0 <= x < b.len() implies {
                let r = #[trigger] b[x];
                &&& r < k
                &&& !pid_listed(pids, parents[r as int])
            } by {
                if x < a.len() {
                    assert(b[x] == a[x]);
                }
            }
        } else {
            assert(roots_before(pids, parents, k) == a);
        }
    }
}

/// No process appears twice in the tree: when the pids are distinct and the roots are
/// distinct processes without a listed parent, the rows that `build_tree` gives name
/// each process at most once.
pub proof fn lemma_tree_rows_unique(pids: Seq<u32>, parents: Seq<Option<u32>>, roots: Seq<usize>, a: int, b: int)
    requires
        pids.len() == parents.len() <= usize::MAX,
        distinct_pids(pids),
        roots.no_duplicates(),
        forall|x: int| 0 <= x < roots.len() ==> #[trigger] roots[x] < pids.len(),
        forall|x: int| 0 <= x < roots.len() ==> !pid_listed(pids, parents[#[trigger] roots[x] as int]),
        0 <= a < b < forest_rows(pids, parents, roots, roots.len() as int).len(),
    ensures
        forest_rows(pids, parents, roots, roots.len() as int)[a].0 != forest_rows(pids, parents, roots, roots.len() as int)[b].0,
{
    let rows = forest_rows(pids, parents, roots, roots.len() as int);
    lemma_forest_no_dup(pids, parents, roots, roots.len() as int);
    let ra = rows[a];
    let rb = rows[b];
    if ra.0 == rb.0 {
        assert(rows.contains(ra));
        assert(rows.contains(rb));
        lemma_tree_rows_are_descendants(pids, parents, roots, roots.len() as int, ra.0, ra.1);
        lemma_tree_rows_are_descendants(pids, parents, roots, roots.len() as int, rb.0, rb.1);
        let xa = choose|x: int| 0 <= x < roots.len() && #[trigger] below(pids, parents, ra.0 as int, roots[x] as int, ra.1 as nat);
        let xb = choose|x: int| 0 <= x < roots.len() && #[trigger] below(pids, parents, rb.0 as int, roots[x] as int, rb.1 as nat);
        let c = ra.0 as int;
        if ra.1 <= rb.1 {
            lemma_chain_unique(pids, parents, c, roots[xa] as int, ra.1 as nat, roots[xb] as int, rb.1 as nat);
            if ra.1 < rb.1 {
                lemma_root_not_below(pids, parents, roots[xa] as int, roots[xb] as int, (rb.1 - ra.1) as nat);
            }
        } else {
            lemma_chain_unique(pids, parents, c, roots[xb] as int, rb.1 as nat, roots[xa] as int, ra.1 as nat);
            lemma_root_not_below(pids, parents, roots[xb] as int, roots[xa] as int, (ra.1 - rb.1) as nat);
        }
        assert(ra == rb);
    }
}

/// The rows of the trees of distinct roots hold no row twice.
proof fn lemma_forest_no_dup(pids: Seq<u32>, parents: Seq<Option<u32>>, roots: Seq<usize>, k: int)
    requires
        pids.len() == parents.len() <= usize::MAX,
        distinct_pids(pids),
        roots.no_duplicates(),
        forall|x: int| 0 <= x < roots.len() ==> #[trigger] roots[x] < pids.len(),
        forall|x: int| 0 <= x < roots.len() ==> !pid_listed(pids, parents[#[trigger] roots[x] as int]),
        0 <= k <= roots.len(),
    ensures
        forest_rows(pids, parents, roots, k).no_duplicates(),
    decreases k,
{
    if k > 0 {
        lemma_forest_no_dup(pids, parents, roots, k - 1);
        let a = forest_rows(pids, parents, roots, k - 1);
        let r = roots[k - 1];
        let b = subtree_rows(pids, parents, r as int, 0, pids.len());
        assert(r < pids.len());
        assert(!pid_listed(pids, parents[r as int]));
        lemma_root_off_cycle(pids, parents, r as int);
        lemma_subtree_no_dup(pids, parents, r as int, 0, pids.len());
        lemma_subtree_rows_below(pids, parents, r as int, 0, pids.len());
        assert(a.disjoint(b)) by {
            assert forall|x: int, y: int| 0 <= x < a.len() && 0 <= y < b.len() implies a[x] != b[y] by {
                if a[x] == b[y] {
                    let row = a[x];
                    assert(a.contains(row));
                    lemma_tree_rows_are_descendants(pids, parents, roots, k - 1, row.0, row.1);
                    let j = choose|j: int| 0 <= j < k - 1 && #[trigger] below(pids, parents, row.0 as int, roots[j] as int, row.1 as nat);
                    assert(below(pids, parents, row.0 as int, r as int, row.1 as nat));
                    lemma_chain_unique(pids, parents, row.0 as int, roots[j] as int, row.1 as nat, r as int, row.1 as nat);
                    assert(roots[j] == roots[k - 1]);
                }
            }
        }
        lemma_concat_no_dup(a, b);
        assert(forest_rows(pids, parents, roots, k) == a + b);
    }
}

/// Row `k` stays in a search: it or one of the rows below it matches.
pub open spec fn kept(rows: Seq<(usize, usize)>, matches: Seq<bool>, k: int) -> bool {
    exists|m: int| k <= m < rows.len() && (forall|j: int| k < j <= m ==> #[trigger] rows[j].1 > rows[k].1) && #[trigger] matches[m]
}

/// The rows among the first `k` that stay in a search, in order.
pub open spec fn kept_before(rows: Seq<(usize, usize)>, matches: Seq<bool>, k: int) -> Seq<(usize, usize)>
    decreases k,
{
    if k <= 0 {
        Seq::empty()
    } else {
        let init = kept_before(rows, matches, k - 1);
        if kept(rows, matches, k - 1) {
            init.push(rows[k - 1])
        } else {
            init
        }
    }
}

/// Appends the rows of the subtree of `i` (see `subtree_rows`).
fn push_subtree(pids: &[u32], parents: &[Option<u32>], i: usize, depth: usize, fuel: usize, out: &mut Vec<(usize, usize)>)
    requires
        pids@.len() == parents@.len(),
        i < pids@.len(),
        depth + fuel <= pids@.len(),
    ensures
        final(out)@ == old(out)@ + subtree_rows(pids@, parents@, i as int, depth as nat, fuel as nat),
    decreases fuel, 1int, 0int,
{
    if fuel == 0 {
        assert(old(out)@ + Seq::<(usize, usize)>::empty() == old(out)@);
        return;
    }
    out.push((i, depth));
    let ghost mid = out@;
    push_children(pids, parents, i, depth, fuel - 1, out);
    assert(old(out)@ + subtree_rows(pids@, parents@, i as int, depth as nat, fuel as nat) == mid
        + child_rows(pids@, parents@, i as int, depth as nat, (fuel - 1) as nat, parents@.len() as int));
}

/// Appends the rows of the subtrees of the children of `i` (see `child_rows`).
fn push_children(pids: &[u32], parents: &[Option<u32>], i: usize, depth: usize, fuel: usize, out: &mut Vec<(usize, usize)>)
    requires
        pids@.len() == parents@.len(),
        i < pids@.len(),
        depth + 1 + fuel <= pids@.len(),
    ensures
        final(out)@ == old(out)@ + child_rows(pids@, parents@, i as int, depth as nat, fuel as nat, parents@.len() as int),
    decreases fuel, 2int, 0int,
{
    let n = parents.len();
    let mut k: usize = 0;
    while k < n
        invariant
            n == parents@.len() == pids@.len(),
            i < n,
            depth + 1 + fuel <= n,
            k <= n,
            out@ == old(out)@ + child_rows(pids@, parents@, i as int, depth as nat, fuel as nat, k as int),
        decreases n - k,
    {
        let ghost before = out@;
        let is_child = match parents[k] {
            Some(p) => p == pids[i],
            None => false,
        };
        if is_child {
            push_subtree(pids, parents, k, depth + 1, fuel, out);
        }
        assert(out@ == old(out)@ + child_rows(pids@, parents@, i as int, depth as nat, fuel as nat, k + 1)) by {
            assert(parents@[k as int] == Some(pids@[i as int]) <==> is_child);
            if is_child {
                assert(out@ == before + subtree_rows(pids@, parents@, k as int, (depth + 1) as nat, fuel as nat));
            } else {
                assert(out@ == before);
                assert(before + Seq::<(usize, usize)>::empty() == before);
            }
        }
        k = k + 1;
    }
}

impl ProcessTreeBuilder {
    /// The processes that are roots of the tree, in order.
    pub fn root_positions(pids: &[u32], parents: &[Option<u32>]) -> (r: Vec<usize>)
        requires
            pids@.len() == parents@.len(),
        ensures
            r@ == roots_before(pids@, parents@, pids@.len() as int),
    {
        let n = pids.len();
        let mut r: Vec<usize> = Vec::new();
        let mut i: usize = 0;
        while i < n
            invariant
                n == pids@.len() == parents@.len(),
                i <= n,
                r@ == roots_before(pids@, parents@, i as int),
            decreases n - i,
        {
            let listed = match parents[i] {
                Some(p) => {
                    let mut found = false;
                    let mut j: usize = 0;
                    while j < n
                        invariant
                            n == pids@.len(),
                            j <= n,
                            found == exists|m: int| 0 <= m < j && pids@[m] == p,
                        decreases n - j,
                    {
                        if pids[j] == p {
                            found = true;
                        }
                        j = j + 1;
                    }
                    found
                },
                None => false,
            };
            assert(listed == pid_listed(pids@, parents@[i as int]));
            if !listed {
                r.push(i);
            }
            i = i + 1;
        }
        r
    }

    /// The rows of the tree, in display order: for each root of `roots` in turn, its
    /// subtree (see `subtree_rows`), walked at most as deep as there are processes.
    /// Each row is a process's position and its depth.
    pub fn build_tree(pids: &[u32], parents: &[Option<u32>], roots: &[usize]) -> (r: Vec<(usize, usize)>)
        requires
            pids@.len() == parents@.len(),
            forall|k: int| 0 <= k < roots@.len() ==> #[trigger] roots@[k] < pids@.len(),
        ensures
            r@ == forest_rows(pids@, parents@, roots@, roots@.len() as int),
    {
        let mut r: Vec<(usize, usize)> = Vec::new();
        let mut k: usize = 0;
        while k < roots.len()
            invariant
                pids@.len() == parents@.len(),
                forall|m: int| 0 <= m < roots@.len() ==> #[trigger] roots@[m] < pids@.len(),
                k <= roots@.len(),
                r@ == forest_rows(pids@, parents@, roots@, k as int),
            decreases roots.len() - k,
        {
            let root = roots[k];
            assert(roots@[k as int] < pids@.len());
            push_subtree(pids, parents, root, 0, pids.len(), &mut r);
            k = k + 1;
        }
        r
    }

    /// The rows that stay when the tree is searched: a row stays when its process, or
    /// one shown below it, matches (`matches[k]` tells whether row `k` does).
    pub fn filter_tree(rows: &[(usize, usize)], matches: &[bool]) -> (r: Vec<(usize, usize)>)
        requires
            matches@.len() == rows@.len(),
        ensures
            r@ == kept_before(rows@, matches@, rows@.len() as int),
    {
        let n = rows.len();
        let mut r: Vec<(usize, usize)> = Vec::new();
        let mut k: usize = 0;
        while k < n
            invariant
                n == rows@.len() == matches@.len(),
                k <= n,
                r@ == kept_before(rows@, matches@, k as int),
            decreases n - k,
        {
            let d = rows[k].1;
            let mut m: usize = k;
            let mut found = false;
            let mut stop = false;
            while m < n && !found && !stop
                invariant
                    n == rows@.len() == matches@.len(),
                    k <= m <= n,
                    d == rows@[k as int].1,
                    forall|j: int| k < j < m ==> #[trigger] rows@[j].1 > d,
                    found ==> kept(rows@, matches@, k as int),
                    !found ==> forall|j: int| k <= j < m ==> !#[trigger] matches@[j],
                    stop ==> k < m < n && rows@[m as int].1 <= d,
                decreases n - m, if found || stop { 0int } else { 1int },
            {
                if m > k && rows[m].1 <= d {
                    stop = true;
                } else if matches[m] {
                    found = true;
                    assert(kept(rows@, matches@, k as int)) by {
                        assert(forall|j: int| k < j <= m ==> #[trigger] rows@[j].1 > rows@[k as int].1);
                    }
                } else {
                    m = m + 1;
                }
            }
            assert(found == kept(rows@, matches@, k as int)) by {
                if !found && kept(rows@, matches@, k as int) {
                    let w = choose|w: int| k <= w < rows@.len() && (forall|j: int| k < j <= w ==> #[trigger] rows@[j].1 > rows@[k as int].1) && #[trigger] matches@[w];
                    if w >= m {
                        assert(stop);
                        assert(rows@[m as int].1 > rows@[k as int].1);
                    }
                }
            }
            if found {
                r.push(rows[k]);
            }
            k = k + 1;
        }
        r
    }
}

/// The name shown for a process at `depth` in the tree: below the roots, two spaces of
/// indent per level and `├─ ` before the name.
pub open spec fn tree_display_name(name: Seq<char>, depth: nat) -> Seq<char> {
    if depth > 0 {
        Seq::new(2 * depth, |i: int| ' ') + "├─ "@ + name
    } else {
        name
    }
}

/// The row at `k` has children: the next row is deeper.
pub open spec fn row_has_children(rows: Seq<(usize, usize)>, k: int) -> bool {
    k + 1 < rows.len() && rows[k + 1].1 > rows[k].1
}

impl ProcessTreeBuilder {
    /// The name shown for a process at `depth` in the tree (see `tree_display_name`).
    pub fn display_name(name: &str, depth: usize) -> (r: String)
        ensures
            r@ == tree_display_name(name@, depth as nat),
    {
        if depth == 0 {
            return name.to_owned();
        }
        let mut r = String::new();
        let mut i: usize = 0;
        while i < depth
            invariant
                i <= depth,
                r@ == Seq::new(2 * i as nat, |j: int| ' '),
            decreases depth - i,
        {
            crate::text::push_chars(&mut r, "  ");
            proof {
                reveal_strlit("  ");
            }
            assert(r@ =~= Seq::new(2 * (i + 1) as nat, |j: int| ' '));
            i = i + 1;
        }
        crate::text::push_chars(&mut r, "├─ ");
        crate::text::push_chars(&mut r, name);
        r
    }

    /// Whether each row of the tree has children, in order (see `row_has_children`).
    pub fn rows_with_children(rows: &[(usize, usize)]) -> (r: Vec<bool>)
        ensures
            r@.len() == rows@.len(),
            forall|k: int| 0 <= k < r@.len() ==> r@[k] == row_has_children(rows@, k),
    {
        let mut r: Vec<bool> = Vec::new();
        let mut k: usize = 0;
        while k < rows.len()
            invariant
                k <= rows@.len(),
                r@.len() == k,
                forall|j: int| 0 <= j < k ==> r@[j] == row_has_children(rows@, j),
            decreases rows.len() - k,
        {
            r.push(k + 1 < rows.len() && rows[k + 1].1 > rows[k].1);
            k = k + 1;
        }
        r
    }
}

} // verus!
