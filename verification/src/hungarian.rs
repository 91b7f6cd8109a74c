//! Minimum-cost bipartite matching via the Hungarian (Kuhn-Munkres) algorithm.
//!
//! Given a cost matrix `cost[i][j]` for `rows` row-agents and `cols`
//! column-agents, computes `(row, col)` pairs forming an assignment of least
//! total cost. A rectangular matrix is padded to a square one with a fixed
//! padding cost. Runs in O(N^3) time where N = max(rows, cols).
//!
//! The algorithm keeps a potential `u[r]` for every row and `v[j]` for every
//! column with `u[r] + v[j] <= cost(r, j)` everywhere and equality on every
//! matched pair; rows are added one at a time along shortest alternating
//! paths. Indices of rows and columns are 1-based inside the algorithm;
//! column 0 is a virtual column holding the row being added.

use vstd::prelude::*;

verus! {

/// Upper bound of every entry of the padded matrix.
pub open spec fn cap() -> int {
    0xFFFF_FFFF
}

/// Entry `(r, j)` of the padded matrix, for 1-based `r` and `j`.
pub open spec fn cm(c: Seq<Vec<i64>>, r: int, j: int) -> int {
    c[r - 1]@[j - 1] as int
}

/// The padded square matrix has side `n` and entries in `[0, cap()]`.
pub open spec fn matrix_ok(c: Seq<Vec<i64>>, n: int) -> bool {
    &&& c.len() == n
    &&& forall|a: int| 0 <= a < n ==> (#[trigger] c[a]@).len() == n
    &&& forall|a: int, b: int| 0 <= a < n && 0 <= b < n ==> 0 <= #[trigger] c[a]@[b] <= cap()
}

/// Reduced cost of the pair `(r, j)` under the potentials `u`, `v`.
pub open spec fn red(c: Seq<Vec<i64>>, u: Seq<i64>, v: Seq<i64>, r: int, j: int) -> int {
    cm(c, r, j) - u[r] - v[j]
}

/// Number of `false` entries.
pub open spec fn count_false(s: Seq<bool>) -> nat
    decreases s.len(),
{
    if s.len() == 0 {
        0
    } else {
        count_false(s.drop_last()) + if s.last() { 0nat } else { 1nat }
    }
}

proof fn lemma_count_false_set(s: Seq<bool>, j: int)
    requires
        0 <= j < s.len(),
        !s[j],
    ensures
        count_false(s.update(j, true)) + 1 == count_false(s),
    decreases s.len(),
{
    let t = s.update(j, true);
    if j == s.len() - 1 {
        assert(t.drop_last() =~= s.drop_last());
    } else {
        assert(t.drop_last() =~= s.drop_last().update(j, true));
        lemma_count_false_set(s.drop_last(), j);
    }
}

/// Row `r` is matched to some column.
pub open spec fn row_matched(p: Seq<usize>, n: int, r: int) -> bool {
    exists|j: int| 1 <= j <= n && p[j] == r
}

/// Columns `1..=n` hold rows below `i` (0: free), no row twice, and every
/// row in `1..i` is held by a column.
pub open spec fn partial_matching(p: Seq<usize>, n: int, i: int) -> bool {
    &&& p.len() == n + 1
    &&& forall|j: int| 1 <= j <= n ==> #[trigger] p[j] < i
    &&& forall|j1: int, j2: int|
        1 <= j1 <= n && 1 <= j2 <= n && j1 != j2 && p[j1] != 0 ==> #[trigger] p[j1] != #[trigger] p[j2]
    &&& forall|r: int| 1 <= r < i ==> #[trigger] row_matched(p, n, r)
}

/// No reduced cost is negative.
pub open spec fn feasible(c: Seq<Vec<i64>>, n: int, u: Seq<i64>, v: Seq<i64>) -> bool {
    forall|r: int, j: int| 1 <= r <= n && 1 <= j <= n ==> #[trigger] red(c, u, v, r, j) >= 0
}

/// Every matched pair has reduced cost zero.
pub open spec fn tight(c: Seq<Vec<i64>>, n: int, u: Seq<i64>, v: Seq<i64>, p: Seq<usize>) -> bool {
    forall|j: int| 1 <= j <= n && p[j] != 0 ==> #[trigger] red(c, u, v, p[j] as int, j) == 0
}

/// Potentials stay within `[0, cap()]` for rows and `[-cap(), 0]` for
/// columns; rows from `z` on and free columns are still at zero.
pub open spec fn bounded(n: int, z: int, u: Seq<i64>, v: Seq<i64>, p: Seq<usize>) -> bool {
    &&& u.len() == n + 1
    &&& v.len() == n + 1
    &&& forall|r: int| 1 <= r <= n ==> 0 <= #[trigger] u[r] <= cap()
    &&& forall|r: int| z <= r <= n ==> #[trigger] u[r] == 0
    &&& forall|j: int| 1 <= j <= n ==> -cap() <= #[trigger] v[j] <= 0
    &&& forall|j: int| 1 <= j <= n && p[j] == 0 ==> #[trigger] v[j] == 0
}

/// The state before row `i` is added.
pub open spec fn phase_inv(
    c: Seq<Vec<i64>>,
    n: int,
    i: int,
    u: Seq<i64>,
    v: Seq<i64>,
    p: Seq<usize>,
) -> bool {
    &&& partial_matching(p, n, i)
    &&& feasible(c, n, u, v)
    &&& tight(c, n, u, v, p)
    &&& bounded(n, i, u, v, p)
    &&& -(i - 1) * cap() <= v[0] <= 0
}

/// With fewer matched rows than columns, some column is free.
proof fn lemma_free_column(p: Seq<usize>, n: int, i: int)
    requires
        partial_matching(p, n, i),
        1 <= i <= n,
    ensures
        exists|j: int| 1 <= j <= n && p[j] == 0,
{
    let cols = vstd::set_lib::set_int_range(1, n + 1);
    let matched = cols.filter(|j: int| p[j] != 0);
    let f = |j: int| p[j] as int;
    vstd::set_lib::lemma_int_range(1, n + 1);
    vstd::set_lib::lemma_int_range(1, i);
    if !(exists|j: int| 1 <= j <= n && p[j] == 0) {
        assert(matched =~= cols);
        assert(vstd::relations::injective_on(f, matched)) by {
            assert forall|a: int, b: int| matched.contains(a) && matched.contains(b) && #[trigger] f(a) == #[trigger] f(b) implies a == b by {
                if a != b {
                    assert(p[a] != p[b]);
                }
            }
        }
        let img = matched.map(f);
        vstd::set_lib::lemma_map_size(matched, img, f);
        assert(img.subset_of(vstd::set_lib::set_int_range(1, i))) by {
            assert forall|x: int| img.contains(x) implies vstd::set_lib::set_int_range(1, i).contains(x) by {
                let a = choose|a: int| matched.contains(a) && f(a) == x;
                assert(p[a] < i);
            }
        }
        vstd::set_lib::lemma_len_subset(img, vstd::set_lib::set_int_range(1, i));
        assert(false);
    }
}

/// Position of a column in the order the tree reached it; the free column
/// that ends the search comes last.
pub open spec fn rank(ord: Seq<int>, k: int, j_end: int, j: int) -> int {
    if j == j_end {
        k
    } else {
        ord[j]
    }
}

/// Flips the alternating path that ends at the free column `j_end`: each
/// column on it takes the row of the column it was reached from. Returns the
/// columns of the path, from `j_end` back to the one reached from column 0.
fn flip_path(
    n: usize,
    j_end: usize,
    p: &mut Vec<usize>,
    way: &Vec<usize>,
    Ghost(used): Ghost<Seq<bool>>,
    Ghost(ord): Ghost<Seq<int>>,
    Ghost(k): Ghost<int>,
) -> (path: Ghost<Seq<int>>)
    requires
        n < 0x4000_0000,
        old(p)@.len() == n + 1,
        way@.len() == n + 1,
        used.len() == n + 1,
        ord.len() == n + 1,
        1 <= j_end <= n,
        !used[j_end as int],
        way@[j_end as int] <= n,
        used[way@[j_end as int] as int],
        forall|j: int| 0 <= j <= n && used[j] ==> 0 <= #[trigger] ord[j] < k,
        forall|j: int|
            1 <= j <= n && #[trigger] used[j] ==> way@[j] <= n && used[way@[j] as int] && ord[way@[j] as int]
                < ord[j],
    ensures
        final(p)@.len() == n + 1,
        path@.len() >= 1,
        path@[0] == j_end,
        forall|s: int| 0 <= s < path@.len() ==> 1 <= #[trigger] path@[s] <= n,
        forall|s: int|
            0 <= s < path@.len() ==> way@[#[trigger] path@[s]] == if s + 1 < path@.len() {
                path@[s + 1]
            } else {
                0
            },
        forall|s: int| 1 <= s < path@.len() ==> used[#[trigger] path@[s]],
        forall|s1: int, s2: int|
            0 <= s1 < s2 < path@.len() ==> #[trigger] path@[s1] != #[trigger] path@[s2],
        forall|j: int|
            0 <= j <= n ==> #[trigger] final(p)@[j] == if path@.contains(j) {
                old(p)@[way@[j] as int]
            } else {
                old(p)@[j]
            },
{
    let mut j0 = j_end;
    let ghost mut path: Seq<int> = Seq::empty();
    let ghost pold = p@;
    while j0 != 0
        invariant
            n < 0x4000_0000,
            p@.len() == n + 1,
            way@.len() == n + 1,
            used.len() == n + 1,
            ord.len() == n + 1,
            1 <= j_end <= n,
            !used[j_end as int],
            way@[j_end as int] <= n,
            used[way@[j_end as int] as int],
            forall|j: int| 0 <= j <= n && used[j] ==> 0 <= #[trigger] ord[j] < k,
            forall|j: int|
                1 <= j <= n && #[trigger] used[j] ==> way@[j] <= n && used[way@[j] as int]
                    && ord[way@[j] as int] < ord[j],
            j0 <= n,
            path.len() == 0 ==> j0 == j_end,
            path.len() > 0 ==> path[0] == j_end && used[j0 as int],
            0 <= rank(ord, k, j_end as int, j0 as int),
            forall|s: int| 0 <= s < path.len() ==> 1 <= #[trigger] path[s] <= n,
            forall|s: int|
                0 <= s < path.len() ==> way@[#[trigger] path[s]] == if s + 1 < path.len() {
                    path[s + 1]
                } else {
                    j0 as int
                },
            forall|s: int| 1 <= s < path.len() ==> used[#[trigger] path[s]],
            forall|s: int|
                0 <= s < path.len() ==> rank(ord, k, j_end as int, #[trigger] path[s]) > rank(
                    ord,
                    k,
                    j_end as int,
                    j0 as int,
                ),
            forall|s1: int, s2: int|
                0 <= s1 < s2 < path.len() ==> rank(ord, k, j_end as int, #[trigger] path[s1]) > rank(
                    ord,
                    k,
                    j_end as int,
                    #[trigger] path[s2],
                ),
            forall|j: int|
                0 <= j <= n ==> #[trigger] p@[j] == if path.contains(j) {
                    pold[way@[j] as int]
                } else {
                    pold[j]
                },
        decreases rank(ord, k, j_end as int, j0 as int),
    {
        let j1 = way[j0];
        proof {
            if path.len() > 0 {
                assert(1 <= j0 <= n && used[j0 as int]);
            }
            assert(used[j1 as int]);
            assert(j1 != j_end);
            assert(rank(ord, k, j_end as int, j1 as int) < rank(ord, k, j_end as int, j0 as int));
            if path.contains(j1 as int) {
                let s = choose|s: int| 0 <= s < path.len() && path[s] == j1;
                assert(rank(ord, k, j_end as int, path[s]) > rank(ord, k, j_end as int, j0 as int));
            }
            if path.contains(j0 as int) {
                let s = choose|s: int| 0 <= s < path.len() && path[s] == j0;
                assert(rank(ord, k, j_end as int, path[s]) > rank(ord, k, j_end as int, j0 as int));
            }
        }
        let pj1 = p[j1];
        p.set(j0, pj1);
        proof {
            let old_path = path;
            path = path.push(j0 as int);
            assert forall|j: int| 0 <= j <= n implies #[trigger] p@[j] == if path.contains(j) {
                pold[way@[j] as int]
            } else {
                pold[j]
            } by {
                if j == j0 {
                    assert(path[old_path.len() as int] == j);
                } else {
                    if old_path.contains(j) {
                        let s = choose|s: int| 0 <= s < old_path.len() && old_path[s] == j;
                        assert(path[s] == j);
                    }
                    if path.contains(j) {
                        let s = choose|s: int| 0 <= s < path.len() && path[s] == j;
                        assert(old_path[s] == j);
                    }
                }
            }
        }
        j0 = j1;
    }
    Ghost(path)
}

/// After flipping the path, rows `1..=i` are matched, and all matched pairs
/// are still tight.
proof fn lemma_after_flip(
    c: Seq<Vec<i64>>,
    n: int,
    i: int,
    u: Seq<i64>,
    v: Seq<i64>,
    pold: Seq<usize>,
    pnew: Seq<usize>,
    way: Seq<usize>,
    used: Seq<bool>,
    path: Seq<int>,
)
    requires
        1 <= i <= n,
        partial_matching(pold, n, i),
        pold[0] == i,
        way.len() == n + 1,
        used.len() == n + 1,
        pnew.len() == n + 1,
        tight(c, n, u, v, pold),
        bounded(n, i + 1, u, v, pold),
        forall|j: int| 1 <= j <= n && #[trigger] used[j] ==> pold[j] != 0,
        path.len() >= 1,
        pold[path[0]] == 0,
        forall|s: int| 0 <= s < path.len() ==> 1 <= #[trigger] path[s] <= n,
        forall|s: int|
            0 <= s < path.len() ==> way[#[trigger] path[s]] == if s + 1 < path.len() {
                path[s + 1]
            } else {
                0
            },
        forall|s: int| 1 <= s < path.len() ==> used[#[trigger] path[s]],
        forall|s1: int, s2: int| 0 <= s1 < s2 < path.len() ==> #[trigger] path[s1] != #[trigger] path[s2],
        forall|s: int|
            0 <= s < path.len() ==> #[trigger] red(c, u, v, pold[way[path[s]] as int] as int, path[s]) == 0,
        forall|j: int|
            0 <= j <= n ==> #[trigger] pnew[j] == if path.contains(j) {
                pold[way[j] as int]
            } else {
                pold[j]
            },
    ensures
        partial_matching(pnew, n, i + 1),
        tight(c, n, u, v, pnew),
        bounded(n, i + 1, u, v, pnew),
{
    let last = path.len() - 1;
    // index of a column on the path
    assert forall|j: int| 1 <= j <= n implies #[trigger] pnew[j] < i + 1 by {
        if path.contains(j) {
            let s = choose|s: int| 0 <= s < path.len() && path[s] == j;
            if s + 1 < path.len() {
                assert(pold[path[s + 1]] < i);
            }
        }
    }
    assert forall|j1: int, j2: int|
        1 <= j1 <= n && 1 <= j2 <= n && j1 != j2 && pnew[j1] != 0 implies #[trigger] pnew[j1]
        != #[trigger] pnew[j2] by {
        let in1 = path.contains(j1);
        let in2 = path.contains(j2);
        if in1 && in2 {
            let s1 = choose|s: int| 0 <= s < path.len() && path[s] == j1;
            let s2 = choose|s: int| 0 <= s < path.len() && path[s] == j2;
            assert(s1 != s2);
            if s1 + 1 < path.len() && s2 + 1 < path.len() {
                assert(path[s1 + 1] != path[s2 + 1]);
                assert(used[path[s1 + 1]]);
                assert(pold[path[s1 + 1]] != pold[path[s2 + 1]]);
            } else if s1 + 1 < path.len() {
                assert(pold[path[s1 + 1]] < i);
            } else {
                assert(s2 + 1 < path.len());
                assert(pold[path[s2 + 1]] < i);
            }
        } else if in1 {
            let s1 = choose|s: int| 0 <= s < path.len() && path[s] == j1;
            if s1 + 1 < path.len() {
                let w = path[s1 + 1];
                assert(w != j2);
                assert(used[w]);
                assert(pold[w] != 0);
                assert(pold[w] != pold[j2]);
            } else {
                assert(pold[j2] < i);
            }
        } else if in2 {
            let s2 = choose|s: int| 0 <= s < path.len() && path[s] == j2;
            if s2 + 1 < path.len() {
                let w = path[s2 + 1];
                assert(w != j1);
                assert(pold[j1] != pold[w]);
            } else {
                assert(pold[j1] < i);
            }
        } else {
            assert(pold[j1] != pold[j2]);
        }
    }
    assert forall|r: int| 1 <= r < i + 1 implies #[trigger] row_matched(pnew, n, r) by {
        if r == i {
            assert(path.contains(path[last]));
            assert(pnew[path[last]] == pold[0]);
        } else {
            assert(row_matched(pold, n, r));
            let j = choose|j: int| 1 <= j <= n && pold[j] == r;
            if path.contains(j) {
                let s = choose|s: int| 0 <= s < path.len() && path[s] == j;
                assert(s != 0);
                assert(path.contains(path[s - 1]));
                assert(pnew[path[s - 1]] == pold[j]);
            } else {
                assert(pnew[j] == r);
            }
        }
    }
    assert forall|j: int| 1 <= j <= n && pnew[j] != 0 implies #[trigger] red(c, u, v, pnew[j] as int, j) == 0 by {
        if path.contains(j) {
            let s = choose|s: int| 0 <= s < path.len() && path[s] == j;
            assert(red(c, u, v, pold[way[path[s]] as int] as int, path[s]) == 0);
        }
    }
    assert forall|j: int| 1 <= j <= n && pnew[j] == 0 implies #[trigger] v[j] == 0 by {
        if path.contains(j) {
            let s = choose|s: int| 0 <= s < path.len() && path[s] == j;
            if s + 1 < path.len() {
                assert(used[path[s + 1]]);
            }
        }
    }
}

/// The state of the search for a free column while row `i` is added: the
/// tree holds the columns marked `used` and their rows; `way[j]` is the tree
/// column from which column `j` was best reached, `min_v[j]` its reduced
/// cost from the tree, and `ord` the order in which columns joined the tree.
#[verifier::opaque]
pub open spec fn search_inv(
    c: Seq<Vec<i64>>,
    n: int,
    i: int,
    u: Seq<i64>,
    v: Seq<i64>,
    p: Seq<usize>,
    used: Seq<bool>,
    min_v: Seq<i64>,
    way: Seq<usize>,
    ord: Seq<int>,
    k: int,
    j0: int,
    done: bool,
    v0s: int,
    jstar: int,
) -> bool {
    &&& p[0] == i
    &&& partial_matching(p, n, i)
    &&& feasible(c, n, u, v)
    &&& tight(c, n, u, v, p)
    &&& bounded(n, i + 1, u, v, p)
    &&& v[0] == v0s - u[i]
    &&& -(i - 1) * cap() <= v0s <= 0
    &&& 1 <= jstar <= n
    &&& p[jstar] == 0
    &&& forall|j: int| 1 <= j <= n && #[trigger] used[j] ==> p[j] != 0
    &&& 0 <= j0 <= n
    &&& !used[j0]
    &&& 0 <= k
    &&& k == 0 ==> j0 == 0 && !done
    &&& k == 0 ==> forall|j: int| 0 <= j <= n ==> !#[trigger] used[j]
    &&& k == 0 ==> forall|j: int| 0 <= j <= n ==> #[trigger] min_v[j] == i64::MAX
    &&& k > 0 ==> used[0] && 1 <= j0 && min_v[j0] == 0
    &&& !done && j0 >= 1 ==> p[j0] != 0
    &&& done ==> p[j0] == 0 && j0 >= 1
    &&& forall|j: int| 0 <= j <= n && #[trigger] used[j] ==> 0 <= ord[j] < k
    &&& forall|j: int|
        1 <= j <= n && #[trigger] used[j] ==> way[j] <= n && used[way[j] as int] && ord[way[j] as int] < ord[j]
            && red(c, u, v, p[way[j] as int] as int, j) == 0
    &&& k > 0 ==> forall|j: int|
        1 <= j <= n && !#[trigger] used[j] ==> way[j] <= n && used[way[j] as int] && 0 <= min_v[j] <= 2
            * cap() && min_v[j] == red(c, u, v, p[way[j] as int] as int, j)
    &&& k > 0 ==> forall|j: int, jt: int|
        1 <= j <= n && 0 <= jt <= n && !#[trigger] used[j] && #[trigger] used[jt] ==> min_v[j] <= red(
            c,
            u,
            v,
            p[jt] as int,
            j,
        )
}

/// The search state when row `i` starts: nothing in the tree yet.
proof fn lemma_search_start(
    c: Seq<Vec<i64>>,
    n: int,
    i: int,
    u: Seq<i64>,
    v: Seq<i64>,
    p: Seq<usize>,
    used: Seq<bool>,
    min_v: Seq<i64>,
    way: Seq<usize>,
    ord: Seq<int>,
    jstar: int,
    p_in: Seq<usize>,
)
    requires
        1 <= i <= n,
        phase_inv(c, n, i, u, v, p_in),
        p == p_in.update(0, i as usize),
        p[0] == i,
        1 <= jstar <= n,
        p_in[jstar] == 0,
        used.len() == n + 1,
        min_v.len() == n + 1,
        forall|j: int| 0 <= j <= n ==> !#[trigger] used[j],
        forall|j: int| 0 <= j <= n ==> #[trigger] min_v[j] == i64::MAX,
    ensures
        search_inv(c, n, i, u, v, p, used, min_v, way, ord, 0, 0, false, v[0] as int, jstar),
{
    reveal(search_inv);
    assert forall|r: int| 1 <= r < i implies #[trigger] row_matched(p, n, r) by {
        assert(row_matched(p_in, n, r));
        let j = choose|j: int| 1 <= j <= n && p_in[j] == r;
        assert(p[j] == r);
    }
    assert forall|j: int| 1 <= j <= n && p[j] != 0 implies #[trigger] red(c, u, v, p[j] as int, j) == 0 by {
        assert(p[j] == p_in[j]);
    }
}

/// Facts about the search state needed to scan from the newest tree row.
proof fn lemma_search_facts(
    c: Seq<Vec<i64>>,
    n: int,
    i: int,
    u: Seq<i64>,
    v: Seq<i64>,
    p: Seq<usize>,
    used: Seq<bool>,
    min_v: Seq<i64>,
    way: Seq<usize>,
    ord: Seq<int>,
    k: int,
    j0: int,
    v0s: int,
    jstar: int,
)
    requires
        1 <= i <= n,
        search_inv(c, n, i, u, v, p, used, min_v, way, ord, k, j0, false, v0s, jstar),
    ensures
        0 <= j0 <= n,
        !used[j0],
        1 <= p[j0] <= n,
        p[0] == i,
        partial_matching(p, n, i),
        bounded(n, i + 1, u, v, p),
        1 <= jstar <= n,
        p[jstar] == 0,
{
    reveal(search_inv);
}

/// The search state just after a scan: `used`, `ord`, `k` already include
/// the column that joined the tree; `m1`, `w1` are the scanned costs and
/// origins; `delta`, attained at the free-of-tree column `j1`, is the least
/// of them.
#[verifier::opaque]
pub open spec fn scanned(
    c: Seq<Vec<i64>>,
    n: int,
    i: int,
    u: Seq<i64>,
    v: Seq<i64>,
    p: Seq<usize>,
    used: Seq<bool>,
    m1: Seq<i64>,
    w1: Seq<usize>,
    ord: Seq<int>,
    k: int,
    j1: int,
    delta: int,
    v0s: int,
    jstar: int,
) -> bool {
    &&& p[0] == i
    &&& partial_matching(p, n, i)
    &&& feasible(c, n, u, v)
    &&& tight(c, n, u, v, p)
    &&& bounded(n, i + 1, u, v, p)
    &&& v[0] == v0s - u[i]
    &&& -(i - 1) * cap() <= v0s <= 0
    &&& 1 <= jstar <= n
    &&& p[jstar] == 0
    &&& !used[jstar]
    &&& used[0]
    &&& 1 <= j1 <= n
    &&& !used[j1]
    &&& delta == m1[j1]
    &&& 0 <= delta <= 2 * cap()
    &&& 0 < k
    &&& forall|j: int| 1 <= j <= n && !used[j] ==> delta <= #[trigger] m1[j]
    &&& forall|j: int| 1 <= j <= n && #[trigger] used[j] ==> p[j] != 0
    &&& forall|j: int| 0 <= j <= n && #[trigger] used[j] ==> 0 <= ord[j] < k
    &&& forall|j: int|
        1 <= j <= n && #[trigger] used[j] ==> w1[j] <= n && used[w1[j] as int] && ord[w1[j] as int] < ord[j]
            && red(c, u, v, p[w1[j] as int] as int, j) == 0
    &&& forall|j: int|
        1 <= j <= n && !#[trigger] used[j] ==> w1[j] <= n && used[w1[j] as int] && 0 <= m1[j] <= 2 * cap()
            && m1[j] == red(c, u, v, p[w1[j] as int] as int, j)
    &&& forall|j: int, jt: int|
        1 <= j <= n && 0 <= jt <= n && !#[trigger] used[j] && #[trigger] used[jt] ==> m1[j] <= red(
            c,
            u,
            v,
            p[jt] as int,
            j,
        )
}

/// Column `j0` joins the tree and the columns are scanned from its row.
#[verifier::rlimit(60)]
proof fn lemma_scan_step(
    c: Seq<Vec<i64>>,
    n: int,
    i: int,
    u: Seq<i64>,
    v: Seq<i64>,
    p: Seq<usize>,
    used0: Seq<bool>,
    m0: Seq<i64>,
    m1: Seq<i64>,
    w0: Seq<usize>,
    w1: Seq<usize>,
    ord0: Seq<int>,
    k0: int,
    j0: int,
    j1: int,
    delta: int,
    v0s: int,
    jstar: int,
)
    requires
        matrix_ok(c, n),
        1 <= i <= n < 0x4000_0000,
        u.len() == n + 1,
        v.len() == n + 1,
        used0.len() == n + 1,
        m0.len() == n + 1,
        m1.len() == n + 1,
        w0.len() == n + 1,
        w1.len() == n + 1,
        ord0.len() == n + 1,
        search_inv(c, n, i, u, v, p, used0, m0, w0, ord0, k0, j0, false, v0s, jstar),
        forall|j: int|
            0 <= j <= n && (j == 0 || used0.update(j0, true)[j]) ==> #[trigger] m1[j] == m0[j],
        forall|j: int| 0 <= j <= n && (j == 0 || used0.update(j0, true)[j]) ==> #[trigger] w1[j] == w0[j],
        forall|j: int|
            1 <= j <= n && !used0.update(j0, true)[j] ==> if red(c, u, v, p[j0] as int, j) < m0[j] {
                m1[j] == red(c, u, v, p[j0] as int, j) && w1[j] == j0
            } else {
                m1[j] == m0[j] && w1[j] == w0[j]
            },
        0 <= j1 <= n,
        j1 == 0 ==> delta == i64::MAX && forall|j: int| 1 <= j <= n ==> used0.update(j0, true)[j],
        j1 != 0 ==> !used0.update(j0, true)[j1] && delta == m1[j1],
        forall|j: int| 1 <= j <= n && !used0.update(j0, true)[j] ==> delta <= m1[j],
    ensures
        scanned(
            c,
            n,
            i,
            u,
            v,
            p,
            used0.update(j0, true),
            m1,
            w1,
            ord0.update(j0, k0),
            k0 + 1,
            j1,
            delta,
            v0s,
            jstar,
        ),
{
    reveal(search_inv);
    reveal(scanned);
    let used = used0.update(j0, true);
    let ord = ord0.update(j0, k0);
    let k = k0 + 1;
    let i0 = p[j0] as int;
    assert(!used[jstar]);
    assert(1 <= i0 <= n);
    assert forall|j: int| 1 <= j <= n && !#[trigger] used[j] implies w1[j] <= n && used[w1[j] as int] && 0
        <= m1[j] <= 2 * cap() && m1[j] == red(c, u, v, p[w1[j] as int] as int, j) by {
        assert(!used0[j]);
        assert(red(c, u, v, i0, j) >= 0);
        assert(0 <= c[i0 - 1]@[j - 1] <= cap());
        assert(-cap() <= v[j]);
        assert(0 <= u[i0] <= cap());
        if k0 == 0 {
            assert(m0[j] == i64::MAX);
        }
    }
    assert forall|j: int, jt: int|
        1 <= j <= n && 0 <= jt <= n && !#[trigger] used[j] && #[trigger] used[jt] implies m1[j] <= red(
        c,
        u,
        v,
        p[jt] as int,
        j,
    ) by {
        if jt != j0 {
            assert(used0[jt]);
            assert(!used0[j]);
        }
    }
    assert(j1 != 0);
    assert(0 <= delta <= 2 * cap());
    assert forall|j: int| 1 <= j <= n && #[trigger] used[j] implies w1[j] <= n && used[w1[j] as int] && ord[w1[j] as int]
        < ord[j] && red(c, u, v, p[w1[j] as int] as int, j) == 0 by {
        if j == j0 {
            assert(k0 > 0);
            assert(!used0[j]);
            assert(m0[j] == 0);
        } else {
            assert(used0[j]);
        }
    }
    assert forall|j: int| 0 <= j <= n && #[trigger] used[j] implies 0 <= ord[j] < k by {
        if j != j0 {
            assert(used0[j]);
        }
    }
    assert forall|j: int| 1 <= j <= n && #[trigger] used[j] implies p[j] != 0 by {
        if j != j0 {
            assert(used0[j]);
        }
    }
    assert(used[0]);
}

/// Tree columns hold distinct rows, and tree rows have bounded potentials:
/// what shifting the potentials by `delta` needs.
proof fn lemma_scanned_shift_ok(
    c: Seq<Vec<i64>>,
    n: int,
    i: int,
    u: Seq<i64>,
    v: Seq<i64>,
    p: Seq<usize>,
    used: Seq<bool>,
    m1: Seq<i64>,
    w1: Seq<usize>,
    ord: Seq<int>,
    k: int,
    j1: int,
    delta: int,
    v0s: int,
    jstar: int,
)
    requires
        1 <= i <= n < 0x4000_0000,
        used.len() == n + 1,
        m1.len() == n + 1,
        scanned(c, n, i, u, v, p, used, m1, w1, ord, k, j1, delta, v0s, jstar),
    ensures
        1 <= j1 <= n,
        0 <= delta <= 2 * cap(),
        forall|j: int| 0 <= j <= n ==> #[trigger] p[j] <= n,
        forall|a: int, b: int|
            0 <= a <= n && 0 <= b <= n && a != b && used[a] && used[b] ==> #[trigger] p[a] != #[trigger] p[b],
        forall|j: int|
            0 <= j <= n && used[j] ==> u[p[j] as int] + delta <= i64::MAX && v[j] - delta >= i64::MIN,
        forall|j: int| 0 <= j <= n && !used[j] ==> m1[j] - delta >= i64::MIN,
{
    reveal(scanned);
    assert forall|a: int, b: int|
        0 <= a <= n && 0 <= b <= n && a != b && used[a] && used[b] implies #[trigger] p[a] != #[trigger] p[b] by {
        if a == 0 {
            assert(p[b] < i);
        } else if b == 0 {
            assert(p[a] < i);
        } else {
            assert(p[a] != 0);
        }
    }
    assert forall|j: int| 0 <= j <= n implies #[trigger] p[j] <= n by {
        if j >= 1 {
            assert(p[j] < i);
        }
    }
    assert forall|j: int| 0 <= j <= n && used[j] implies u[p[j] as int] + delta <= i64::MAX && v[j] - delta
        >= i64::MIN by {
        if j >= 1 {
            assert(p[j] < i);
            assert(0 <= u[p[j] as int] <= cap());
            assert(-cap() <= v[j]);
        } else {
            assert(0 <= u[i] <= cap());
            assert((i - 1) * cap() <= 0x4000_0000 * cap()) by (nonlinear_arith)
                requires
                    i <= 0x4000_0000,
                    cap() >= 0,
            ;
        }
    }
    assert forall|j: int| 0 <= j <= n && !used[j] implies m1[j] - delta >= i64::MIN by {
        if j >= 1 {
            assert(0 <= m1[j]);
        }
    }
}

/// After the potentials shift by `delta`, the search state holds again with
/// `j1` as the next column to join the tree.
#[verifier::rlimit(60)]
proof fn lemma_shift_step(
    c: Seq<Vec<i64>>,
    n: int,
    i: int,
    u0: Seq<i64>,
    v0: Seq<i64>,
    u2: Seq<i64>,
    v2: Seq<i64>,
    p: Seq<usize>,
    used: Seq<bool>,
    m1: Seq<i64>,
    m2: Seq<i64>,
    w1: Seq<usize>,
    ord: Seq<int>,
    k: int,
    j1: int,
    delta: int,
    v0s: int,
    jstar: int,
)
    requires
        matrix_ok(c, n),
        1 <= i <= n < 0x4000_0000,
        u0.len() == n + 1,
        v0.len() == n + 1,
        u2.len() == n + 1,
        v2.len() == n + 1,
        used.len() == n + 1,
        m1.len() == n + 1,
        m2.len() == n + 1,
        w1.len() == n + 1,
        ord.len() == n + 1,
        scanned(c, n, i, u0, v0, p, used, m1, w1, ord, k, j1, delta, v0s, jstar),
        forall|j: int| 0 <= j <= n && used[j] ==> u2[p[j] as int] == u0[p[j] as int] + delta,
        forall|r: int|
            0 <= r <= n && (forall|j: int| 0 <= j <= n && used[j] ==> p[j] != r) ==> u2[r] == u0[r],
        forall|j: int|
            0 <= j <= n ==> #[trigger] v2[j] == if used[j] {
                v0[j] - delta
            } else {
                v0[j] as int
            },
        forall|j: int|
            0 <= j <= n ==> #[trigger] m2[j] == if used[j] {
                m1[j] as int
            } else {
                m1[j] - delta
            },
    ensures
        search_inv(c, n, i, u2, v2, p, used, m2, w1, ord, k, j1, p[j1] == 0, v0s, jstar),
{
    reveal(search_inv);
    reveal(scanned);
    assert forall|r: int|
        0 <= r <= n && !(exists|jt: int| 0 <= jt <= n && #[trigger] used[jt] && p[jt] == r) implies u2[r] == u0[r] by {
        assert forall|jt: int| 0 <= jt <= n && used[jt] implies p[jt] != r by {}
    }
    assert forall|r: int, j: int| 1 <= r <= n && 1 <= j <= n implies #[trigger] red(c, u2, v2, r, j) >= 0 by {
        assert(red(c, u0, v0, r, j) >= 0);
        if exists|jt: int| 0 <= jt <= n && #[trigger] used[jt] && p[jt] == r {
            let jt = choose|jt: int| 0 <= jt <= n && #[trigger] used[jt] && p[jt] == r;
            assert(u2[p[jt] as int] == u0[p[jt] as int] + delta);
            if !used[j] {
                assert(m1[j] <= red(c, u0, v0, p[jt] as int, j));
            }
        }
    }
    assert forall|j: int| 1 <= j <= n && p[j] != 0 implies #[trigger] red(c, u2, v2, p[j] as int, j) == 0 by {
        assert(red(c, u0, v0, p[j] as int, j) == 0);
        if used[j] {
            assert(u2[p[j] as int] == u0[p[j] as int] + delta);
        } else {
            assert forall|jt: int| 0 <= jt <= n && used[jt] implies p[jt] != p[j] by {
                if jt == 0 {
                    assert(p[j] < i);
                }
            }
        }
    }
    assert forall|r: int| 1 <= r <= n implies 0 <= #[trigger] u2[r] <= cap() by {
        assert(red(c, u2, v2, r, jstar) >= 0);
        assert(v2[jstar] == v0[jstar]);
        assert(v0[jstar] == 0);
        assert(c[r - 1]@[jstar - 1] <= cap());
        assert(0 <= u0[r]);
        if exists|jt: int| 0 <= jt <= n && #[trigger] used[jt] && p[jt] == r {
            let jt = choose|jt: int| 0 <= jt <= n && #[trigger] used[jt] && p[jt] == r;
            assert(u2[p[jt] as int] == u0[p[jt] as int] + delta);
        }
    }
    assert forall|r: int| i + 1 <= r <= n implies #[trigger] u2[r] == 0 by {
        assert forall|jt: int| 0 <= jt <= n && used[jt] implies p[jt] != r by {
            if jt >= 1 {
                assert(p[jt] < i);
            }
        }
    }
    assert forall|j: int| 1 <= j <= n implies -cap() <= #[trigger] v2[j] <= 0 by {
        if p[j] != 0 {
            assert(red(c, u2, v2, p[j] as int, j) == 0);
            assert(p[j] < i);
            assert(0 <= c[p[j] - 1]@[j - 1]);
            assert(u2[p[j] as int] <= cap());
        } else {
            assert(!used[j]);
        }
    }
    assert forall|j: int| 1 <= j <= n && p[j] == 0 implies #[trigger] v2[j] == 0 by {
        assert(!used[j]);
    }
    assert(u2[i] == u0[i] + delta);
    assert forall|j: int| 1 <= j <= n && #[trigger] used[j] implies w1[j] <= n && used[w1[j] as int] && ord[w1[j] as int]
        < ord[j] && red(c, u2, v2, p[w1[j] as int] as int, j) == 0 by {
        assert(red(c, u0, v0, p[w1[j] as int] as int, j) == 0);
        assert(u2[p[w1[j] as int] as int] == u0[p[w1[j] as int] as int] + delta);
    }
    assert forall|j: int| 1 <= j <= n && !#[trigger] used[j] implies w1[j] <= n && used[w1[j] as int] && 0 <= m2[j]
        <= 2 * cap() && m2[j] == red(c, u2, v2, p[w1[j] as int] as int, j) by {
        assert(u2[p[w1[j] as int] as int] == u0[p[w1[j] as int] as int] + delta);
    }
    assert forall|j: int, jt: int|
        1 <= j <= n && 0 <= jt <= n && !#[trigger] used[j] && #[trigger] used[jt] implies m2[j] <= red(
        c,
        u2,
        v2,
        p[jt] as int,
        j,
    ) by {
        assert(m1[j] <= red(c, u0, v0, p[jt] as int, j));
        assert(u2[p[jt] as int] == u0[p[jt] as int] + delta);
    }
    assert(m2[j1] == 0);
}

/// Adds row `i` to the matching: grows a tree of tight edges from it,
/// adjusting potentials until a free column is reached, then flips the path.
fn add_row(
    c: &Vec<Vec<i64>>,
    n: usize,
    i: usize,
    u: &mut Vec<i64>,
    v: &mut Vec<i64>,
    p: &mut Vec<usize>,
    way: &mut Vec<usize>,
)
    requires
        matrix_ok(c@, n as int),
        1 <= i <= n < 0x4000_0000,
        phase_inv(c@, n as int, i as int, old(u)@, old(v)@, old(p)@),
        old(way)@.len() == n + 1,
    ensures
        phase_inv(c@, n as int, i + 1, final(u)@, final(v)@, final(p)@),
        final(way)@.len() == n + 1,
{
    proof {
        lemma_free_column(p@, n as int, i as int);
    }
    let ghost jstar = choose|j: int| 1 <= j <= n && p@[j] == 0;
    let ghost v0s = v@[0] as int;
    let ghost p_in = p@;
    p.set(0, i);
    let mut min_v: Vec<i64> = Vec::new();
    let mut used: Vec<bool> = Vec::new();
    let mut q: usize = 0;
    while q <= n
        invariant
            q <= n + 1,
            n < 0x4000_0000,
            min_v@.len() == q,
            used@.len() == q,
            forall|j: int| 0 <= j < q ==> #[trigger] min_v@[j] == i64::MAX,
            forall|j: int| 0 <= j < q ==> !#[trigger] used@[j],
        decreases n + 1 - q,
    {
        min_v.push(i64::MAX);
        used.push(false);
        q += 1;
    }
    let mut j0: usize = 0;
    let mut done = false;
    let ghost mut ord: Seq<int> = Seq::new((n + 1) as nat, |j: int| 0int);
    let ghost mut k: int = 0;
    proof {
        lemma_search_start(c@, n as int, i as int, u@, v@, p@, used@, min_v@, way@, ord, jstar, p_in);
    }
    while !done
        invariant
            matrix_ok(c@, n as int),
            1 <= i <= n < 0x4000_0000,
            u@.len() == n + 1,
            v@.len() == n + 1,
            p@.len() == n + 1,
            way@.len() == n + 1,
            used@.len() == n + 1,
            min_v@.len() == n + 1,
            ord.len() == n + 1,
            search_inv(c@, n as int, i as int, u@, v@, p@, used@, min_v@, way@, ord, k, j0 as int, done, v0s, jstar),
        decreases count_false(used@),
    {
        proof {
            lemma_search_facts(c@, n as int, i as int, u@, v@, p@, used@, min_v@, way@, ord, k, j0 as int, v0s, jstar);
            lemma_count_false_set(used@, j0 as int);
        }
        let ghost used0 = used@;
        let ghost m0 = min_v@;
        let ghost w0 = way@;
        let ghost u0 = u@;
        let ghost v0 = v@;
        let ghost ord0 = ord;
        let ghost k0 = k;
        used.set(j0, true);
        let i0 = p[j0];
        proof {
            assert(0 <= u@[i0 as int] <= cap());
        }
        let (delta, j1) = scan_columns(c, n, i0, j0, u, v, &used, &mut min_v, way);
        let ghost m1 = min_v@;
        let ghost w1 = way@;
        proof {
            lemma_scan_step(
                c@,
                n as int,
                i as int,
                u@,
                v@,
                p@,
                used0,
                m0,
                m1,
                w0,
                w1,
                ord0,
                k0,
                j0 as int,
                j1 as int,
                delta as int,
                v0s,
                jstar,
            );
            ord = ord0.update(j0 as int, k0);
            k = k0 + 1;
            lemma_scanned_shift_ok(
                c@,
                n as int,
                i as int,
                u@,
                v@,
                p@,
                used@,
                m1,
                w1,
                ord,
                k,
                j1 as int,
                delta as int,
                v0s,
                jstar,
            );
        }
        shift_potentials(n, delta, p, &used, u, v, &mut min_v);
        proof {
            lemma_shift_step(
                c@,
                n as int,
                i as int,
                u0,
                v0,
                u@,
                v@,
                p@,
                used@,
                m1,
                min_v@,
                w1,
                ord,
                k,
                j1 as int,
                delta as int,
                v0s,
                jstar,
            );
        }
        j0 = j1;
        if p[j0] == 0 {
            done = true;
        }
    }
    let ghost pold = p@;
    proof {
        reveal(search_inv);
    }
    let path = flip_path(n, j0, p, way, Ghost(used@), Ghost(ord), Ghost(k));
    proof {
        reveal(search_inv);
        assert forall|s: int| 0 <= s < path@.len() implies #[trigger] red(
            c@,
            u@,
            v@,
            pold[way@[path@[s]] as int] as int,
            path@[s],
        ) == 0 by {
            if s > 0 {
                assert(used@[path@[s]]);
            }
        }
        lemma_after_flip(c@, n as int, i as int, u@, v@, pold, p@, way@, used@, path@);
    }
}

// ---------------------------------------------------------------------------
// Sums, and why the potentials make the matching cheapest
// ---------------------------------------------------------------------------

/// `f(0) + f(1) + ... + f(n - 1)`.
pub open spec fn sum_to(f: spec_fn(int) -> int, n: int) -> int
    decreases n,
{
    if n <= 0 {
        0
    } else {
        sum_to(f, n - 1) + f(n - 1)
    }
}

proof fn lemma_sum_le(f: spec_fn(int) -> int, g: spec_fn(int) -> int, n: int)
    requires
        forall|x: int| 0 <= x < n ==> #[trigger] f(x) <= g(x),
    ensures
        sum_to(f, n) <= sum_to(g, n),
    decreases n,
{
    if n > 0 {
        lemma_sum_le(f, g, n - 1);
    }
}

proof fn lemma_sum_eq(f: spec_fn(int) -> int, g: spec_fn(int) -> int, n: int)
    requires
        forall|x: int| 0 <= x < n ==> #[trigger] f(x) == g(x),
    ensures
        sum_to(f, n) == sum_to(g, n),
    decreases n,
{
    if n > 0 {
        lemma_sum_eq(f, g, n - 1);
    }
}

proof fn lemma_sum_add(f: spec_fn(int) -> int, g: spec_fn(int) -> int, h: spec_fn(int) -> int, n: int)
    requires
        forall|x: int| 0 <= x < n ==> #[trigger] h(x) == f(x) + g(x),
    ensures
        sum_to(h, n) == sum_to(f, n) + sum_to(g, n),
    decreases n,
{
    if n > 0 {
        lemma_sum_add(f, g, h, n - 1);
    }
}

/// Changing one term changes the sum by the difference.
proof fn lemma_sum_update(f: spec_fn(int) -> int, g: spec_fn(int) -> int, n: int, t: int)
    requires
        0 <= t < n,
        forall|x: int| 0 <= x < n && x != t ==> #[trigger] f(x) == g(x),
    ensures
        sum_to(g, n) == sum_to(f, n) - f(t) + g(t),
    decreases n,
{
    if t == n - 1 {
        lemma_sum_eq(f, g, n - 1);
    } else {
        lemma_sum_update(f, g, n - 1, t);
    }
}

/// Some `x` in `[0, n)` is mapped to `y`.
pub open spec fn hits(sigma: spec_fn(int) -> int, n: int, y: int) -> bool {
    exists|x: int| 0 <= x < n && #[trigger] sigma(x) == y
}

/// `sigma` maps `[0, n)` one to one onto itself.
pub open spec fn is_bijection(sigma: spec_fn(int) -> int, n: int) -> bool {
    &&& forall|x: int| 0 <= x < n ==> 0 <= #[trigger] sigma(x) < n
    &&& forall|x1: int, x2: int| 0 <= x1 < n && 0 <= x2 < n && x1 != x2 ==> #[trigger] sigma(x1) != #[trigger] sigma(x2)
    &&& forall|y: int| 0 <= y < n ==> #[trigger] hits(sigma, n, y)
}

/// Summing the terms in another order gives the same sum.
proof fn lemma_sum_bijection(f: spec_fn(int) -> int, sigma: spec_fn(int) -> int, n: int)
    requires
        is_bijection(sigma, n),
    ensures
        sum_to(|x: int| f(sigma(x)), n) == sum_to(f, n),
    decreases n,
{
    if n > 0 {
        assert(hits(sigma, n, n - 1));
        let t = choose|x: int| 0 <= x < n && #[trigger] sigma(x) == n - 1;
        let s2 = |x: int| if x == t { sigma(n - 1) } else { sigma(x) };
        assert(is_bijection(s2, n - 1)) by {
            assert forall|x: int| 0 <= x < n - 1 implies 0 <= #[trigger] s2(x) < n - 1 by {
                if x == t {
                    assert(sigma(n - 1) != sigma(t));
                } else {
                    assert(sigma(x) != sigma(t));
                }
            }
            assert forall|x1: int, x2: int|
                0 <= x1 < n - 1 && 0 <= x2 < n - 1 && x1 != x2 implies #[trigger] s2(x1) != #[trigger] s2(x2) by {
                if x1 == t {
                    assert(sigma(n - 1) != sigma(x2));
                } else if x2 == t {
                    assert(sigma(x1) != sigma(n - 1));
                } else {
                    assert(sigma(x1) != sigma(x2));
                }
            }
            assert forall|y: int| 0 <= y < n - 1 implies #[trigger] hits(s2, n - 1, y) by {
                assert(hits(sigma, n, y));
                let x = choose|x: int| 0 <= x < n && #[trigger] sigma(x) == y;
                if x == n - 1 {
                    assert(s2(t) == y);
                } else {
                    assert(x != t);
                    assert(s2(x) == y);
                }
            }
        }
        lemma_sum_bijection(f, s2, n - 1);
        let fs = |x: int| f(sigma(x));
        let fs2 = |x: int| f(s2(x));
        if t == n - 1 {
            lemma_sum_eq(fs, fs2, n - 1);
        } else {
            lemma_sum_update(fs, fs2, n - 1, t);
        }
        assert(sum_to(fs, n) == sum_to(fs, n - 1) + fs(n - 1));
    }
}

/// A one-to-one map of `[0, n)` into itself is onto.
proof fn lemma_injection_is_bijection(sigma: spec_fn(int) -> int, n: int)
    requires
        0 <= n,
        forall|x: int| 0 <= x < n ==> 0 <= #[trigger] sigma(x) < n,
        forall|x1: int, x2: int| 0 <= x1 < n && 0 <= x2 < n && x1 != x2 ==> #[trigger] sigma(x1) != #[trigger] sigma(x2),
    ensures
        is_bijection(sigma, n),
{
    let dom = vstd::set_lib::set_int_range(0, n);
    vstd::set_lib::lemma_int_range(0, n);
    let img = dom.map(sigma);
    assert(vstd::relations::injective_on(sigma, dom)) by {
        assert forall|a: int, b: int| dom.contains(a) && dom.contains(b) && #[trigger] sigma(a) == #[trigger] sigma(b) implies a
            == b by {}
    }
    vstd::set_lib::lemma_map_size(dom, img, sigma);
    assert(img.subset_of(dom));
    vstd::set_lib::lemma_subset_equality(img, dom);
    assert forall|y: int| 0 <= y < n implies #[trigger] hits(sigma, n, y) by {
        assert(img.contains(y));
    }
}

/// With feasible potentials that are tight on a perfect matching `p`, no
/// perfect matching `sigma` (column `j` to row `sigma(j)`, 0-based) costs
/// less than `p`.
proof fn lemma_matching_cheapest(
    c: Seq<Vec<i64>>,
    n: int,
    u: Seq<i64>,
    v: Seq<i64>,
    p: Seq<usize>,
    sigma: spec_fn(int) -> int,
)
    requires
        1 <= n,
        partial_matching(p, n, n + 1),
        forall|j: int| 1 <= j <= n ==> #[trigger] p[j] != 0,
        feasible(c, n, u, v),
        tight(c, n, u, v, p),
        u.len() == n + 1,
        v.len() == n + 1,
        is_bijection(sigma, n),
    ensures
        sum_to(|j: int| cm(c, p[j + 1] as int, j + 1), n) <= sum_to(|j: int| cm(c, sigma(j) + 1, j + 1), n),
{
    let fu = |r: int| u[r + 1] as int;
    let fv = |j: int| v[j + 1] as int;
    let pz = |j: int| p[j + 1] - 1;
    lemma_injection_is_bijection(pz, n);
    lemma_sum_bijection(fu, pz, n);
    lemma_sum_bijection(fu, sigma, n);
    let fup = |j: int| fu(pz(j));
    let fus = |j: int| fu(sigma(j));
    let cost_p = |j: int| cm(c, p[j + 1] as int, j + 1);
    let cost_s = |j: int| cm(c, sigma(j) + 1, j + 1);
    let dual_p = |j: int| fup(j) + fv(j);
    let dual_s = |j: int| fus(j) + fv(j);
    assert forall|j: int| 0 <= j < n implies #[trigger] cost_p(j) == dual_p(j) by {
        assert(red(c, u, v, p[j + 1] as int, j + 1) == 0);
    }
    lemma_sum_eq(cost_p, dual_p, n);
    lemma_sum_add(fup, fv, dual_p, n);
    assert forall|j: int| 0 <= j < n implies #[trigger] dual_s(j) <= cost_s(j) by {
        assert(0 <= sigma(j) < n);
        assert(red(c, u, v, sigma(j) + 1, j + 1) >= 0);
    }
    lemma_sum_le(dual_s, cost_s, n);
    lemma_sum_add(fus, fv, dual_s, n);
}

/// Entry `(a, b)` of the cost matrix padded to a square with `pad_cost`
/// (0-based).
pub open spec fn padded_cost(cost: Seq<Vec<u32>>, rows: int, cols: int, pad_cost: u32, a: int, b: int) -> int {
    if a < rows && b < cols {
        cost[a]@[b] as int
    } else {
        pad_cost as int
    }
}

/// Total cost of the pairs in `a`.
pub open spec fn assignment_cost(cost: Seq<Vec<u32>>, a: Seq<(usize, usize)>) -> int
    decreases a.len(),
{
    if a.len() == 0 {
        0
    } else {
        assignment_cost(cost, a.drop_last()) + cost[a.last().0 as int]@[a.last().1 as int] as int
    }
}

/// `perm` gives each column `j < n` a row `perm[j] < n`, no row twice.
pub open spec fn is_permutation(perm: Seq<int>, n: int) -> bool {
    &&& perm.len() == n
    &&& forall|j: int| 0 <= j < n ==> 0 <= #[trigger] perm[j] < n
    &&& forall|j1: int, j2: int| 0 <= j1 < n && 0 <= j2 < n && j1 != j2 ==> #[trigger] perm[j1] != #[trigger] perm[j2]
}

/// The padded cost of column `j` under `perm`, as a function of `j`.
pub open spec fn padded_terms(cost: Seq<Vec<u32>>, rows: int, cols: int, pad_cost: u32, perm: Seq<int>) -> spec_fn(int) -> int {
    |j: int| padded_cost(cost, rows, cols, pad_cost, perm[j], j)
}

/// Cost of the assignment `perm` in the padded square matrix.
pub open spec fn padded_total(cost: Seq<Vec<u32>>, rows: int, cols: int, pad_cost: u32, perm: Seq<int>) -> int {
    sum_to(padded_terms(cost, rows, cols, pad_cost, perm), perm.len() as int)
}

proof fn lemma_sum_const(f: spec_fn(int) -> int, n: int, k: int)
    requires
        0 <= n,
        forall|x: int| 0 <= x < n ==> #[trigger] f(x) == k,
    ensures
        sum_to(f, n) == n * k,
    decreases n,
{
    if n > 0 {
        lemma_sum_const(f, n - 1, k);
        assert(f(n - 1) == k);
        assert(sum_to(f, n) == sum_to(f, n - 1) + f(n - 1));
        assert(n * k == (n - 1) * k + k) by (nonlinear_arith);
    } else {
        assert(n * k == 0) by (nonlinear_arith)
            requires
                n == 0,
        ;
    }
}

/// `a` pairs rows below `rows` with columns below `cols`, in increasing
/// column order, never using a row or a column twice.
pub open spec fn is_matching(a: Seq<(usize, usize)>, rows: int, cols: int) -> bool {
    &&& forall|k: int| 0 <= k < a.len() ==> (#[trigger] a[k]).0 < rows && a[k].1 < cols
    &&& forall|k1: int, k2: int| 0 <= k1 < k2 < a.len() ==> (#[trigger] a[k1]).1 < (#[trigger] a[k2]).1
    &&& forall|k1: int, k2: int| 0 <= k1 < a.len() && 0 <= k2 < a.len() && k1 != k2 ==> (#[trigger] a[k1]).0 != (
        #[trigger] a[k2]).0
}

/// Row `r` is paired in `a`.
pub open spec fn row_paired(a: Seq<(usize, usize)>, r: int) -> bool {
    exists|k: int| 0 <= k < a.len() && (#[trigger] a[k]).0 == r
}

/// Column `q` is paired in `a`.
pub open spec fn col_paired(a: Seq<(usize, usize)>, q: int) -> bool {
    exists|k: int| 0 <= k < a.len() && (#[trigger] a[k]).1 == q
}

/// Every row below `rows` is paired in `a`.
pub open spec fn covers_rows(a: Seq<(usize, usize)>, rows: int) -> bool {
    forall|r: int| 0 <= r < rows ==> #[trigger] row_paired(a, r)
}

/// Every column below `cols` is paired in `a`.
pub open spec fn covers_cols(a: Seq<(usize, usize)>, cols: int) -> bool {
    forall|q: int| 0 <= q < cols ==> #[trigger] col_paired(a, q)
}

/// A matching has at most as many pairs as rows and as columns; one that
/// pairs every row has exactly as many pairs as rows, and one that pairs
/// every column exactly as many as columns.
pub proof fn lemma_matching_len(a: Seq<(usize, usize)>, rows: int, cols: int)
    requires
        0 <= rows,
        0 <= cols,
        is_matching(a, rows, cols),
    ensures
        a.len() <= rows,
        a.len() <= cols,
        covers_rows(a, rows) ==> a.len() == rows,
        covers_cols(a, cols) ==> a.len() == cols,
{
    let dom = vstd::set_lib::set_int_range(0, a.len() as int);
    vstd::set_lib::lemma_int_range(0, a.len() as int);
    vstd::set_lib::lemma_int_range(0, rows);
    vstd::set_lib::lemma_int_range(0, cols);
    let fr = |k: int| a[k].0 as int;
    let fc = |k: int| a[k].1 as int;
    assert(vstd::relations::injective_on(fr, dom)) by {
        assert forall|x: int, y: int| dom.contains(x) && dom.contains(y) && #[trigger] fr(x) == #[trigger] fr(y) implies x
            == y by {
            if x != y {
                assert(a[x].0 != a[y].0);
            }
        }
    }
    assert(vstd::relations::injective_on(fc, dom)) by {
        assert forall|x: int, y: int| dom.contains(x) && dom.contains(y) && #[trigger] fc(x) == #[trigger] fc(y) implies x
            == y by {
            if x < y {
                assert(a[x].1 < a[y].1);
            } else if y < x {
                assert(a[y].1 < a[x].1);
            }
        }
    }
    let ir = dom.map(fr);
    let ic = dom.map(fc);
    vstd::set_lib::lemma_map_size(dom, ir, fr);
    vstd::set_lib::lemma_map_size(dom, ic, fc);
    assert(ir.subset_of(vstd::set_lib::set_int_range(0, rows)));
    assert(ic.subset_of(vstd::set_lib::set_int_range(0, cols)));
    vstd::set_lib::lemma_len_subset(ir, vstd::set_lib::set_int_range(0, rows));
    vstd::set_lib::lemma_len_subset(ic, vstd::set_lib::set_int_range(0, cols));
    if covers_rows(a, rows) {
        assert(vstd::set_lib::set_int_range(0, rows).subset_of(ir)) by {
            assert forall|r: int| vstd::set_lib::set_int_range(0, rows).contains(r) implies ir.contains(r) by {
                assert(row_paired(a, r));
                let k = choose|k: int| 0 <= k < a.len() && (#[trigger] a[k]).0 == r;
                assert(dom.contains(k) && fr(k) == r);
            }
        }
        vstd::set_lib::lemma_len_subset(vstd::set_lib::set_int_range(0, rows), ir);
    }
    if covers_cols(a, cols) {
        assert(vstd::set_lib::set_int_range(0, cols).subset_of(ic)) by {
            assert forall|q: int| vstd::set_lib::set_int_range(0, cols).contains(q) implies ic.contains(q) by {
                assert(col_paired(a, q));
                let k = choose|k: int| 0 <= k < a.len() && (#[trigger] a[k]).1 == q;
                assert(dom.contains(k) && fc(k) == q);
            }
        }
        vstd::set_lib::lemma_len_subset(vstd::set_lib::set_int_range(0, cols), ic);
    }
}

/// When every row is matched, every column is matched too.
proof fn lemma_all_columns_matched(p: Seq<usize>, n: int)
    requires
        partial_matching(p, n, n + 1),
    ensures
        forall|j: int| 1 <= j <= n ==> #[trigger] p[j] != 0,
{
    if exists|j0: int| 1 <= j0 <= n && p[j0] == 0 {
        let j0 = choose|j0: int| 1 <= j0 <= n && p[j0] == 0;
        let cols = vstd::set_lib::set_int_range(1, n + 1);
        let matched = cols.filter(|j: int| p[j] != 0);
        let f = |j: int| p[j] as int;
        let rowset = vstd::set_lib::set_int_range(1, n + 1);
        vstd::set_lib::lemma_int_range(1, n + 1);
        assert(matched.map(f) =~= rowset) by {
            assert forall|r: int| rowset.contains(r) implies matched.map(f).contains(r) by {
                assert(row_matched(p, n, r));
                let j = choose|j: int| 1 <= j <= n && p[j] == r;
                assert(matched.contains(j) && f(j) == r);
            }
        }
        vstd::set_lib::lemma_map_size_bound(matched, rowset, f);
        assert(matched.subset_of(cols.remove(j0)));
        vstd::set_lib::lemma_len_subset(matched, cols.remove(j0));
        assert(false);
    }
}

/// Computes a minimum-cost assignment for a (possibly rectangular) cost
/// matrix of `rows` rows and `cols` columns.
///
/// `pad_cost` fills the entries added when the matrix is padded to a square;
/// it should be larger than any real cost so that padding is never preferred.
/// The result lists `(row, col)` pairs in increasing column order; it pairs
/// every row when `rows <= cols` and every column when `cols <= rows`, and
/// no other matching that does so costs less. The
/// padded square matrix has `max(rows, cols)^2` entries of eight bytes,
/// which bounds both sides when neither is empty (with an empty side the
/// result is empty and no matrix is built).
pub fn min_cost_assignment(cost: &[Vec<u32>], rows: usize, cols: usize, pad_cost: u32) -> (res: Vec<(usize, usize)>)
    requires
        rows <= cost@.len(),
        forall|a: int| 0 <= a < rows ==> cols <= (#[trigger] cost@[a])@.len(),
        rows == 0 || cols == 0 || (rows < 0x4000_0000 && cols < 0x4000_0000),
    ensures
        res@.len() == if rows < cols { rows as int } else { cols as int },
        is_matching(res@, rows as int, cols as int),
        rows <= cols ==> covers_rows(res@, rows as int),
        cols <= rows ==> covers_cols(res@, cols as int),
        rows <= cols ==> forall|m: Seq<(usize, usize)>|
            is_matching(m, rows as int, cols as int) && covers_rows(m, rows as int) ==> assignment_cost(cost@, res@)
                <= #[trigger] assignment_cost(cost@, m),
        cols <= rows ==> forall|m: Seq<(usize, usize)>|
            is_matching(m, rows as int, cols as int) && covers_cols(m, cols as int) ==> assignment_cost(cost@, res@)
                <= #[trigger] assignment_cost(cost@, m),
        forall|perm: Seq<int>|
            is_permutation(perm, if rows > cols { rows as int } else { cols as int }) ==> assignment_cost(cost@, res@)
                + pad_cost * ((if rows > cols { rows as int } else { cols as int }) - res@.len()) <= #[trigger] padded_total(
                cost@,
                rows as int,
                cols as int,
                pad_cost,
                perm,
            ),
{
    if rows == 0 || cols == 0 {
        let res: Vec<(usize, usize)> = Vec::new();
        proof {
            let n: int = if rows > cols { rows as int } else { cols as int };
            assert forall|perm: Seq<int>| is_permutation(perm, n) implies assignment_cost(cost@, res@) + pad_cost * (n
                - res@.len()) <= #[trigger] padded_total(cost@, rows as int, cols as int, pad_cost, perm) by {
                let f = padded_terms(cost@, rows as int, cols as int, pad_cost, perm);
                lemma_sum_const(f, n, pad_cost as int);
                assert(n * pad_cost == pad_cost * (n - 0)) by (nonlinear_arith);
            }
        }
        proof {
            if rows <= cols {
                assert forall|m: Seq<(usize, usize)>|
                    is_matching(m, rows as int, cols as int) && covers_rows(m, rows as int) implies assignment_cost(
                    cost@,
                    res@,
                ) <= #[trigger] assignment_cost(cost@, m) by {
                    crate::matching::lemma_cheapest_over_matchings(cost@, rows as int, cols as int, pad_cost, res@, m);
                }
            }
            if cols <= rows {
                assert forall|m: Seq<(usize, usize)>|
                    is_matching(m, rows as int, cols as int) && covers_cols(m, cols as int) implies assignment_cost(
                    cost@,
                    res@,
                ) <= #[trigger] assignment_cost(cost@, m) by {
                    crate::matching::lemma_cheapest_over_column_matchings(cost@, rows as int, cols as int, pad_cost, res@, m);
                }
            }
        }
        return res;
    }
    let n = if rows > cols { rows } else { cols };
    let big = pad_cost as i64;
    let mut c: Vec<Vec<i64>> = Vec::new();
    let mut i: usize = 0;
    while i < n
        invariant
            i <= n,
            n == if rows > cols { rows } else { cols },
            rows <= cost@.len(),
            forall|a: int| 0 <= a < rows ==> cols <= (#[trigger] cost@[a])@.len(),
            big == pad_cost,
            c@.len() == i,
            forall|a: int| 0 <= a < i ==> (#[trigger] c@[a])@.len() == n,
            forall|a: int, b: int|
                0 <= a < i && 0 <= b < n ==> #[trigger] c@[a]@[b] == padded_cost(
                    cost@,
                    rows as int,
                    cols as int,
                    pad_cost,
                    a,
                    b,
                ),
        decreases n - i,
    {
        let mut row: Vec<i64> = Vec::new();
        let mut j: usize = 0;
        while j < n
            invariant
                i < n,
                j <= n,
                n == if rows > cols { rows } else { cols },
                rows <= cost@.len(),
                forall|a: int| 0 <= a < rows ==> cols <= (#[trigger] cost@[a])@.len(),
                big == pad_cost,
                row@.len() == j,
                forall|b: int| 0 <= b < j ==> #[trigger] row@[b] == padded_cost(
                    cost@,
                    rows as int,
                    cols as int,
                    pad_cost,
                    i as int,
                    b,
                ),
            decreases n - j,
        {
            if i < rows && j < cols {
                row.push(cost[i][j] as i64);
            } else {
                row.push(big);
            }
            j += 1;
        }
        c.push(row);
        i += 1;
    }
    assert(matrix_ok(c@, n as int)) by {
        assert forall|a: int, b: int| 0 <= a < n && 0 <= b < n implies 0 <= #[trigger] c@[a]@[b] <= cap() by {
            assert(c@[a]@[b] == padded_cost(cost@, rows as int, cols as int, pad_cost, a, b));
        }
    }
    let mut u: Vec<i64> = Vec::new();
    let mut v: Vec<i64> = Vec::new();
    let mut p: Vec<usize> = Vec::new();
    let mut way: Vec<usize> = Vec::new();
    let mut q: usize = 0;
    while q <= n
        invariant
            q <= n + 1,
            n < 0x4000_0000,
            u@.len() == q,
            v@.len() == q,
            p@.len() == q,
            way@.len() == q,
            forall|j: int| 0 <= j < q ==> #[trigger] u@[j] == 0,
            forall|j: int| 0 <= j < q ==> #[trigger] v@[j] == 0,
            forall|j: int| 0 <= j < q ==> #[trigger] p@[j] == 0,
        decreases n + 1 - q,
    {
        u.push(0);
        v.push(0);
        p.push(0);
        way.push(0);
        q += 1;
    }
    assert(phase_inv(c@, n as int, 1, u@, v@, p@)) by {
        assert forall|r: int, j: int| 1 <= r <= n && 1 <= j <= n implies #[trigger] red(c@, u@, v@, r, j) >= 0 by {
            assert(0 <= c@[r - 1]@[j - 1]);
        }
    }
    let mut i: usize = 1;
    while i <= n
        invariant
            1 <= i <= n + 1,
            n < 0x4000_0000,
            matrix_ok(c@, n as int),
            phase_inv(c@, n as int, i as int, u@, v@, p@),
            way@.len() == n + 1,
        decreases n + 1 - i,
    {
        add_row(&c, n, i, &mut u, &mut v, &mut p, &mut way);
        i += 1;
    }
    proof {
        lemma_all_columns_matched(p@, n as int);
    }
    let mut res: Vec<(usize, usize)> = Vec::new();
    let mut j: usize = 1;
    let ghost cp = |x: int| cm(c@, p@[x + 1] as int, x + 1);
    assert(pad_cost * ((j - 1) - res@.len()) == 0) by (nonlinear_arith)
        requires
            j == 1,
            res@.len() == 0,
    ;
    while j <= n
        invariant
            1 <= j <= n + 1,
            cp == (|x: int| cm(c@, p@[x + 1] as int, x + 1)),
            c@.len() == n,
            forall|a: int| 0 <= a < n ==> (#[trigger] c@[a])@.len() == n,
            forall|a: int, b: int|
                0 <= a < n && 0 <= b < n ==> #[trigger] c@[a]@[b] == padded_cost(
                    cost@,
                    rows as int,
                    cols as int,
                    pad_cost,
                    a,
                    b,
                ),
            assignment_cost(cost@, res@) + pad_cost * ((j - 1) - res@.len()) == sum_to(cp, j - 1),
            n == if rows > cols { rows } else { cols },
            n < 0x4000_0000,
            partial_matching(p@, n as int, n + 1),
            forall|q: int| 1 <= q <= n ==> #[trigger] p@[q] != 0,
            forall|k: int|
                0 <= k < res@.len() ==> (#[trigger] res@[k]).0 < rows && res@[k].1 < cols && res@[k].1 + 1 < j
                    && p@[res@[k].1 + 1] == res@[k].0 + 1,
            forall|k1: int, k2: int| 0 <= k1 < k2 < res@.len() ==> (#[trigger] res@[k1]).1 < (#[trigger] res@[k2]).1,
            forall|q: int|
                1 <= q < j && #[trigger] p@[q] <= rows && q <= cols ==> col_paired(res@, q - 1),
        decreases n + 1 - j,
    {
        let ghost res0 = res@;
        proof {
            assert(p@[j as int] < n + 1);
            assert(cp(j - 1) == c@[p@[j as int] - 1]@[j - 1]);
        }
        if p[j] != 0 && p[j] <= rows && j <= cols {
            res.push((p[j] - 1, j - 1));
            proof {
                let last = res@.len() - 1;
                assert(res@.drop_last() =~= res0);
                assert((j - 1) - res0.len() == j - res@.len());
                assert(res@[last].1 == j - 1);
                assert forall|q: int| 1 <= q < j + 1 && #[trigger] p@[q] <= rows && q <= cols implies col_paired(
                    res@,
                    q - 1,
                ) by {
                    if q < j {
                        assert(col_paired(res0, q - 1));
                        let k = choose|k: int| 0 <= k < res0.len() && (#[trigger] res0[k]).1 == q - 1;
                        assert(res@[k] == res0[k]);
                    } else {
                        assert(res@[last].1 == q - 1);
                    }
                }
            }
        }
        proof {
            if !(p@[j as int] != 0 && p@[j as int] <= rows && j <= cols) {
                assert(res@ == res0);
                assert(pad_cost * (j - res@.len()) == pad_cost * ((j - 1) - res@.len()) + pad_cost) by (nonlinear_arith);
            }
        }
        j += 1;
    }
    proof {
        let nn: int = n as int;
        assert forall|perm: Seq<int>| is_permutation(perm, nn) implies assignment_cost(cost@, res@) + pad_cost * (nn
            - res@.len()) <= #[trigger] padded_total(cost@, rows as int, cols as int, pad_cost, perm) by {
            let sigma = |j: int| perm[j];
            lemma_injection_is_bijection(sigma, nn);
            lemma_matching_cheapest(c@, nn, u@, v@, p@, sigma);
            let f = padded_terms(cost@, rows as int, cols as int, pad_cost, perm);
            let g = |j: int| cm(c@, sigma(j) + 1, j + 1);
            assert forall|x: int| 0 <= x < nn implies #[trigger] g(x) == f(x) by {
                assert(0 <= perm[x] < nn);
            }
            lemma_sum_eq(g, f, nn);
            assert(sum_to(cp, nn) == sum_to(|j: int| cm(c@, p@[j + 1] as int, j + 1), nn));
        }
        assert forall|k1: int, k2: int|
            0 <= k1 < res@.len() && 0 <= k2 < res@.len() && k1 != k2 implies (#[trigger] res@[k1]).0 != (
            #[trigger] res@[k2]).0 by {
            let a = res@[k1].1 + 1;
            let b = res@[k2].1 + 1;
            if k1 < k2 {
                assert(a < b);
            } else {
                assert(b < a);
            }
            assert(p@[a] != p@[b]);
        }
        if rows <= cols {
            assert forall|r: int| 0 <= r < rows implies #[trigger] row_paired(res@, r) by {
                assert(row_matched(p@, n as int, r + 1));
                let q = choose|q: int| 1 <= q <= n && p@[q] == r + 1;
                assert(col_paired(res@, q - 1));
                let k = choose|k: int| 0 <= k < res@.len() && (#[trigger] res@[k]).1 == q - 1;
                assert(res@[k].0 + 1 == p@[q]);
            }
        }
        if cols <= rows {
            assert forall|qq: int| 0 <= qq < cols implies #[trigger] col_paired(res@, qq) by {
                assert(p@[qq + 1] != 0);
                assert(p@[qq + 1] < n + 1);
                assert(p@[qq + 1] <= rows);
            }
        }
        lemma_matching_len(res@, rows as int, cols as int);
    }
    proof {
        if rows <= cols {
            assert forall|m: Seq<(usize, usize)>|
                is_matching(m, rows as int, cols as int) && covers_rows(m, rows as int) implies assignment_cost(
                cost@,
                res@,
            ) <= #[trigger] assignment_cost(cost@, m) by {
                crate::matching::lemma_cheapest_over_matchings(cost@, rows as int, cols as int, pad_cost, res@, m);
            }
        }
        if cols <= rows {
            assert forall|m: Seq<(usize, usize)>|
                is_matching(m, rows as int, cols as int) && covers_cols(m, cols as int) implies assignment_cost(
                cost@,
                res@,
            ) <= #[trigger] assignment_cost(cost@, m) by {
                crate::matching::lemma_cheapest_over_column_matchings(cost@, rows as int, cols as int, pad_cost, res@, m);
            }
        }
    }
    res
}

/// One scan of the columns not yet in the tree, from the row `i0` that
/// column `j0` brought in: lowers each column's best reduced cost, remembers
/// where it came from, and returns the least of them with its column.
fn scan_columns(
    c: &Vec<Vec<i64>>,
    n: usize,
    i0: usize,
    j0: usize,
    u: &Vec<i64>,
    v: &Vec<i64>,
    used: &Vec<bool>,
    min_v: &mut Vec<i64>,
    way: &mut Vec<usize>,
) -> (res: (i64, usize))
    requires
        matrix_ok(c@, n as int),
        n < 0x4000_0000,
        1 <= i0 <= n,
        j0 <= n,
        u@.len() == n + 1,
        v@.len() == n + 1,
        used@.len() == n + 1,
        old(min_v)@.len() == n + 1,
        old(way)@.len() == n + 1,
        0 <= u@[i0 as int] <= cap(),
        forall|j: int| 1 <= j <= n ==> -cap() <= #[trigger] v@[j] <= 0,
    ensures
        final(min_v)@.len() == n + 1,
        final(way)@.len() == n + 1,
        forall|j: int|
            0 <= j <= n && (j == 0 || used@[j]) ==> #[trigger] final(min_v)@[j] == old(min_v)@[j],
        forall|j: int| 0 <= j <= n && (j == 0 || used@[j]) ==> #[trigger] final(way)@[j] == old(way)@[j],
        forall|j: int|
            1 <= j <= n && !used@[j] ==> if red(c@, u@, v@, i0 as int, j) < old(min_v)@[j] {
                final(min_v)@[j] == red(c@, u@, v@, i0 as int, j) && final(way)@[j] == j0
            } else {
                final(min_v)@[j] == old(min_v)@[j] && final(way)@[j] == old(way)@[j]
            },
        res.1 <= n,
        res.1 == 0 ==> res.0 == i64::MAX && forall|j: int| 1 <= j <= n ==> used@[j],
        res.1 != 0 ==> !used@[res.1 as int] && res.0 == final(min_v)@[res.1 as int],
        forall|j: int| 1 <= j <= n && !used@[j] ==> res.0 <= final(min_v)@[j],
{
    let mut delta: i64 = i64::MAX;
    let mut j1: usize = 0;
    let mut j: usize = 1;
    while j <= n
        invariant
            matrix_ok(c@, n as int),
            1 <= i0 <= n,
            j0 <= n,
            1 <= j <= n + 1,
            n < 0x4000_0000,
            old(min_v)@.len() == n + 1,
            old(way)@.len() == n + 1,
            u@.len() == n + 1,
            v@.len() == n + 1,
            used@.len() == n + 1,
            min_v@.len() == n + 1,
            way@.len() == n + 1,
            0 <= u@[i0 as int] <= cap(),
            forall|q: int| 1 <= q <= n ==> -cap() <= #[trigger] v@[q] <= 0,
            forall|q: int|
                0 <= q <= n && (q == 0 || q >= j || used@[q]) ==> #[trigger] min_v@[q] == old(
                    min_v,
                )@[q],
            forall|q: int|
                0 <= q <= n && (q == 0 || q >= j || used@[q]) ==> #[trigger] way@[q] == old(way)@[q],
            forall|q: int|
                1 <= q < j && !used@[q] ==> if red(c@, u@, v@, i0 as int, q) < old(min_v)@[q] {
                    min_v@[q] == red(c@, u@, v@, i0 as int, q) && way@[q] == j0
                } else {
                    min_v@[q] == old(min_v)@[q] && way@[q] == old(way)@[q]
                },
            j1 < j,
            j1 == 0 ==> delta == i64::MAX && forall|q: int| 1 <= q < j ==> used@[q],
            j1 != 0 ==> !used@[j1 as int] && delta == min_v@[j1 as int],
            forall|q: int| 1 <= q < j && !used@[q] ==> delta <= min_v@[q],
        decreases n + 1 - j,
    {
        if !used[j] {
            proof {
                assert(0 <= c@[i0 - 1]@[j - 1] <= cap());
                assert(-cap() <= v@[j as int] <= 0);
            }
            let cur = c[i0 - 1][j - 1] - u[i0] - v[j];
            assert(cur == red(c@, u@, v@, i0 as int, j as int));
            if cur < min_v[j] {
                min_v.set(j, cur);
                way.set(j, j0);
            }
            if min_v[j] < delta {
                delta = min_v[j];
                j1 = j;
            }
        }
        j += 1;
    }
    (delta, j1)
}

/// Moves the potentials by `delta`: rows of the tree up, tree columns down,
/// and the best reduced costs of the other columns down.
fn shift_potentials(
    n: usize,
    delta: i64,
    p: &Vec<usize>,
    used: &Vec<bool>,
    u: &mut Vec<i64>,
    v: &mut Vec<i64>,
    min_v: &mut Vec<i64>,
)
    requires
        n < 0x4000_0000,
        0 <= delta,
        p@.len() == n + 1,
        used@.len() == n + 1,
        old(u)@.len() == n + 1,
        old(v)@.len() == n + 1,
        old(min_v)@.len() == n + 1,
        forall|j: int| 0 <= j <= n ==> #[trigger] p@[j] <= n,
        forall|j1: int, j2: int|
            0 <= j1 <= n && 0 <= j2 <= n && j1 != j2 && used@[j1] && used@[j2] ==> #[trigger] p@[j1]
                != #[trigger] p@[j2],
        forall|j: int|
            0 <= j <= n && used@[j] ==> old(u)@[p@[j] as int] + delta <= i64::MAX && old(v)@[j]
                - delta >= i64::MIN,
        forall|j: int| 0 <= j <= n && !used@[j] ==> old(min_v)@[j] - delta >= i64::MIN,
    ensures
        final(u)@.len() == n + 1,
        final(v)@.len() == n + 1,
        final(min_v)@.len() == n + 1,
        forall|j: int| 0 <= j <= n && used@[j] ==> final(u)@[p@[j] as int] == old(u)@[p@[j] as int] + delta,
        forall|r: int|
            0 <= r <= n && (forall|j: int| 0 <= j <= n && used@[j] ==> p@[j] != r)
                ==> final(u)@[r] == old(u)@[r],
        forall|j: int|
            0 <= j <= n ==> #[trigger] final(v)@[j] == if used@[j] {
                old(v)@[j] - delta
            } else {
                old(v)@[j] as int
            },
        forall|j: int|
            0 <= j <= n ==> #[trigger] final(min_v)@[j] == if used@[j] {
                old(min_v)@[j] as int
            } else {
                old(min_v)@[j] - delta
            },
{
    let mut j: usize = 0;
    while j <= n
        invariant
            0 <= j <= n + 1,
            n < 0x4000_0000,
            0 <= delta,
            old(u)@.len() == n + 1,
            old(v)@.len() == n + 1,
            old(min_v)@.len() == n + 1,
            p@.len() == n + 1,
            used@.len() == n + 1,
            u@.len() == n + 1,
            v@.len() == n + 1,
            min_v@.len() == n + 1,
            forall|q: int| 0 <= q <= n ==> #[trigger] p@[q] <= n,
            forall|j1: int, j2: int|
                0 <= j1 <= n && 0 <= j2 <= n && j1 != j2 && used@[j1] && used@[j2] ==> #[trigger] p@[j1]
                    != #[trigger] p@[j2],
            forall|q: int|
                0 <= q <= n && used@[q] ==> old(u)@[p@[q] as int] + delta <= i64::MAX && old(v)@[q]
                    - delta >= i64::MIN,
            forall|q: int| 0 <= q <= n && !used@[q] ==> old(min_v)@[q] - delta >= i64::MIN,
            forall|q: int| 0 <= q < j && used@[q] ==> u@[p@[q] as int] == old(u)@[p@[q] as int] + delta,
            forall|r: int|
                0 <= r <= n && (forall|q: int| 0 <= q < j && used@[q] ==> p@[q] != r) ==> u@[r]
                    == old(u)@[r],
            forall|q: int|
                0 <= q <= n ==> #[trigger] v@[q] == if used@[q] && q < j {
                    old(v)@[q] - delta
                } else {
                    old(v)@[q] as int
                },
            forall|q: int|
                0 <= q <= n ==> #[trigger] min_v@[q] == if !used@[q] && q < j {
                    old(min_v)@[q] - delta
                } else {
                    old(min_v)@[q] as int
                },
        decreases n + 1 - j,
    {
        if used[j] {
            let r = p[j];
            proof {
                assert forall|q: int| 0 <= q < j && used@[q] implies p@[q] != r by {
                    assert(p@[q] != p@[j as int]);
                }
                assert(u@[r as int] == old(u)@[r as int]);
                assert(used@[j as int]);
                assert(old(u)@[p@[j as int] as int] + delta <= i64::MAX);
                assert(v@[j as int] == old(v)@[j as int]);
            }
            let nu = u[r] + delta;
            u.set(r, nu);
            let nv = v[j] - delta;
            v.set(j, nv);
        } else {
            let nm = min_v[j] - delta;
            min_v.set(j, nm);
        }
        j += 1;
    }
}

} // verus!
