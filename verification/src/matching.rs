//! Matchings of a cost matrix that pair every row, and the permutations of
//! the padded square matrix that they extend to: the bridge from the
//! optimality of an assignment over permutations to its optimality over
//! matchings.

use vstd::prelude::*;
use crate::hungarian::{
    assignment_cost, col_paired, covers_cols, covers_rows, is_matching, is_permutation, lemma_matching_len,
    padded_terms, padded_total, row_paired, sum_to,
};

verus! {

/// How many of the columns below `j` the matching `m` pairs.
pub open spec fn paired_below(m: Seq<(usize, usize)>, j: int) -> int
    decreases j,
{
    if j <= 0 {
        0
    } else {
        paired_below(m, j - 1) + if col_paired(m, j - 1) {
            1int
        } else {
            0int
        }
    }
}

/// In a matching, whose pairs go by increasing column, the pairs of the
/// columns below `j` come first.
proof fn lemma_paired_below(m: Seq<(usize, usize)>, rows: int, cols: int, j: int)
    requires
        is_matching(m, rows, cols),
        0 <= j,
    ensures
        0 <= paired_below(m, j) <= m.len(),
        paired_below(m, j) <= j,
        forall|k: int| 0 <= k < paired_below(m, j) ==> (#[trigger] m[k]).1 < j,
        forall|k: int| paired_below(m, j) <= k < m.len() ==> (#[trigger] m[k]).1 >= j,
        j > 0 && col_paired(m, j - 1) ==> m[paired_below(m, j - 1)].1 == j - 1,
    decreases j,
{
    if j > 0 {
        lemma_paired_below(m, rows, cols, j - 1);
        let p = paired_below(m, j - 1);
        if col_paired(m, j - 1) {
            let k0 = choose|k: int| 0 <= k < m.len() && (#[trigger] m[k]).1 == j - 1;
            assert(k0 >= p);
            if k0 > p {
                assert(m[p].1 < m[k0].1);
            }
            assert(k0 == p);
            assert forall|k: int| p + 1 <= k < m.len() implies (#[trigger] m[k]).1 >= j by {
                assert(m[p].1 < m[k].1);
            }
            assert forall|k: int| 0 <= k < p + 1 implies (#[trigger] m[k]).1 < j by {
                if k < p {
                } else {
                    assert(m[k].1 == j - 1);
                }
            }
        } else {
            assert forall|k: int| p <= k < m.len() implies (#[trigger] m[k]).1 >= j by {
                if m[k].1 == j - 1 {
                    assert(col_paired(m, j - 1));
                }
            }
        }
    }
}

/// Between two column bounds, the number of paired columns grows by at
/// most the number of columns.
proof fn lemma_paired_below_growth(m: Seq<(usize, usize)>, a: int, b: int)
    requires
        0 <= a <= b,
    ensures
        0 <= paired_below(m, b) - paired_below(m, a) <= b - a,
    decreases b - a,
{
    if a < b {
        lemma_paired_below_growth(m, a, b - 1);
    }
}

/// The row that `m` pairs with column `j`.
pub open spec fn row_for_col(m: Seq<(usize, usize)>, j: int) -> int {
    m[choose|k: int| 0 <= k < m.len() && (#[trigger] m[k]).1 == j].0 as int
}

/// The permutation of the padded square matrix that a matching pairing
/// every row extends: each paired column keeps its row, and the other
/// columns take the padding rows in order.
pub open spec fn perm_of_matching(m: Seq<(usize, usize)>, rows: int, cols: int) -> Seq<int> {
    Seq::new(
        cols as nat,
        |j: int|
            if col_paired(m, j) {
                row_for_col(m, j)
            } else {
                rows + (j - paired_below(m, j))
            },
    )
}

/// A matching that pairs every row extends to a permutation of the padded
/// square matrix whose cost is the matching's plus the padding.
pub proof fn lemma_perm_of_matching(cost: Seq<Vec<u32>>, rows: int, cols: int, pad_cost: u32, m: Seq<(usize, usize)>)
    requires
        0 <= rows <= cols,
        is_matching(m, rows, cols),
        covers_rows(m, rows),
    ensures
        m.len() == rows,
        is_permutation(perm_of_matching(m, rows, cols), cols),
        padded_total(cost, rows, cols, pad_cost, perm_of_matching(m, rows, cols)) == assignment_cost(cost, m)
            + pad_cost * (cols - m.len()),
{
    lemma_matching_len(m, rows, cols);
    let perm = perm_of_matching(m, rows, cols);
    lemma_paired_below(m, rows, cols, cols);
    let total = paired_below(m, cols);
    assert(total == m.len()) by {
        if total < m.len() {
            assert(m[total].1 >= cols);
        }
    }
    // The row of a paired column is the row of its pair.
    assert forall|j: int| 0 <= j < cols && col_paired(m, j) implies row_for_col(m, j) == m[paired_below(m, j)].0 && 0
        <= #[trigger] perm[j] < rows by {
        lemma_paired_below(m, rows, cols, j + 1);
        let k = choose|k: int| 0 <= k < m.len() && (#[trigger] m[k]).1 == j;
        let p = paired_below(m, j);
        assert(m[p].1 == j);
        if k != p {
            if k < p {
                assert(m[k].1 < m[p].1);
            } else {
                assert(m[p].1 < m[k].1);
            }
        }
    }
    // The other columns take distinct padding rows.
    assert forall|j: int| 0 <= j < cols && !col_paired(m, j) implies rows <= #[trigger] perm[j] < cols by {
        lemma_paired_below(m, rows, cols, j);
        lemma_paired_below_growth(m, j + 1, cols);
        assert(paired_below(m, j + 1) == paired_below(m, j));
        assert(perm[j] == rows + (j - paired_below(m, j)));
    }
    assert forall|j1: int, j2: int| 0 <= j1 < cols && 0 <= j2 < cols && j1 != j2 implies #[trigger] perm[j1]
        != #[trigger] perm[j2] by {
        if col_paired(m, j1) && col_paired(m, j2) {
            if j1 < j2 {
                lemma_paired_below_growth(m, j1 + 1, j2);
            } else {
                lemma_paired_below_growth(m, j2 + 1, j1);
            }
            lemma_paired_below(m, rows, cols, j1 + 1);
            lemma_paired_below(m, rows, cols, j2 + 1);
            let p1 = paired_below(m, j1);
            let p2 = paired_below(m, j2);
            assert(m[p1].1 == j1 && m[p2].1 == j2);
            assert(p1 != p2);
            assert(m[p1].0 != m[p2].0);
        } else if !col_paired(m, j1) && !col_paired(m, j2) {
            if j1 < j2 {
                lemma_paired_below_growth(m, j1 + 1, j2);
                assert(paired_below(m, j1 + 1) == paired_below(m, j1));
            } else {
                lemma_paired_below_growth(m, j2 + 1, j1);
                assert(paired_below(m, j2 + 1) == paired_below(m, j2));
            }
        }
    }
    assert(is_permutation(perm, cols));
    // The cost, column by column.
    let g = padded_terms(cost, rows, cols, pad_cost, perm);
    assert forall|j: int| 0 <= j <= cols implies sum_to(g, j) == assignment_cost(cost, m.take(paired_below(m, j)))
        + pad_cost * (j - paired_below(m, j)) by {
        lemma_cost_prefix(cost, rows, cols, pad_cost, m, j);
    }
    assert(m.take(total) =~= m);
}

/// The padded cost of the first `j` columns under `perm_of_matching`.
#[verifier::spinoff_prover]
#[verifier::rlimit(40)]
proof fn lemma_cost_prefix(cost: Seq<Vec<u32>>, rows: int, cols: int, pad_cost: u32, m: Seq<(usize, usize)>, j: int)
    requires
        0 <= rows <= cols,
        is_matching(m, rows, cols),
        covers_rows(m, rows),
        0 <= j <= cols,
    ensures
        sum_to(padded_terms(cost, rows, cols, pad_cost, perm_of_matching(m, rows, cols)), j) == assignment_cost(
            cost,
            m.take(paired_below(m, j)),
        ) + pad_cost * (j - paired_below(m, j)),
    decreases j,
{
    let perm = perm_of_matching(m, rows, cols);
    let g = padded_terms(cost, rows, cols, pad_cost, perm);
    if j == 0 {
        assert(m.take(0) =~= Seq::<(usize, usize)>::empty());
    } else {
        lemma_cost_prefix(cost, rows, cols, pad_cost, m, j - 1);
        assert(sum_to(g, j) == sum_to(g, j - 1) + g(j - 1));
        lemma_paired_below(m, rows, cols, j);
        lemma_paired_below(m, rows, cols, j - 1);
        let p = paired_below(m, j - 1);
        let c = j - 1;
        if col_paired(m, c) {
            let k = choose|k: int| 0 <= k < m.len() && (#[trigger] m[k]).1 == c;
            assert(m[p].1 == c);
            if k != p {
                if k < p {
                    assert(m[k].1 < m[p].1);
                } else {
                    assert(m[p].1 < m[k].1);
                }
            }
            assert(perm[c] == m[p].0 as int);
            assert(g(c) == cost[m[p].0 as int]@[c] as int);
            assert(m.take(p + 1).drop_last() =~= m.take(p));
            assert(m.take(p + 1).last() == m[p]);
            assert(pad_cost * (j - (p + 1)) == pad_cost * (c - p)) by (nonlinear_arith)
                requires
                    j == c + 1,
            ;
        } else {
            lemma_paired_below_growth(m, j, cols);
            assert(perm[c] >= rows);
            assert(g(c) == pad_cost as int);
            assert(pad_cost * (j - p) == pad_cost * (c - p) + pad_cost) by (nonlinear_arith)
                requires
                    j == c + 1,
            ;
        }
    }
}

/// An assignment that pairs every row and costs, with its padding, no more
/// than any permutation of the padded square matrix costs no more than any
/// other matching that pairs every row.
pub proof fn lemma_cheapest_over_matchings(
    cost: Seq<Vec<u32>>,
    rows: int,
    cols: int,
    pad_cost: u32,
    res: Seq<(usize, usize)>,
    m: Seq<(usize, usize)>,
)
    requires
        0 <= rows <= cols,
        res.len() == rows,
        is_matching(m, rows, cols),
        covers_rows(m, rows),
        forall|perm: Seq<int>|
            is_permutation(perm, cols) ==> assignment_cost(cost, res) + pad_cost * (cols - res.len())
                <= #[trigger] padded_total(cost, rows, cols, pad_cost, perm),
    ensures
        assignment_cost(cost, res) <= assignment_cost(cost, m),
{
    lemma_perm_of_matching(cost, rows, cols, pad_cost, m);
    let perm = perm_of_matching(m, rows, cols);
    assert(assignment_cost(cost, res) + pad_cost * (cols - res.len()) <= padded_total(cost, rows, cols, pad_cost, perm));
}

/// How many of the rows below `r` the matching `m` leaves unpaired.
pub open spec fn unpaired_below(m: Seq<(usize, usize)>, r: int) -> int
    decreases r,
{
    if r <= 0 {
        0
    } else {
        unpaired_below(m, r - 1) + if row_paired(m, r - 1) {
            0int
        } else {
            1int
        }
    }
}

proof fn lemma_unpaired_below_growth(m: Seq<(usize, usize)>, a: int, b: int)
    requires
        0 <= a <= b,
    ensures
        0 <= unpaired_below(m, b) - unpaired_below(m, a) <= b - a,
    decreases b - a,
{
    if a < b {
        lemma_unpaired_below_growth(m, a, b - 1);
    }
}

/// The paired rows below `r`.
spec fn paired_rows_below(m: Seq<(usize, usize)>, r: int) -> Set<int> {
    Set::new(|x: int| 0 <= x < r && row_paired(m, x))
}

proof fn lemma_paired_rows_below(m: Seq<(usize, usize)>, r: int)
    requires
        0 <= r,
    ensures
        paired_rows_below(m, r).finite(),
        paired_rows_below(m, r).len() == r - unpaired_below(m, r),
    decreases r,
{
    if r == 0 {
        assert(paired_rows_below(m, 0) =~= Set::<int>::empty());
    } else {
        lemma_paired_rows_below(m, r - 1);
        let s = paired_rows_below(m, r - 1);
        if row_paired(m, r - 1) {
            assert(paired_rows_below(m, r) =~= s.insert(r - 1));
        } else {
            assert(paired_rows_below(m, r) =~= s);
        }
    }
}

/// A matching that pairs every column leaves `rows - cols` rows unpaired.
proof fn lemma_unpaired_total(m: Seq<(usize, usize)>, rows: int, cols: int)
    requires
        0 <= cols <= rows,
        is_matching(m, rows, cols),
        covers_cols(m, cols),
    ensures
        m.len() == cols,
        unpaired_below(m, rows) == rows - cols,
{
    lemma_matching_len(m, rows, cols);
    lemma_paired_rows_below(m, rows);
    let dom = vstd::set_lib::set_int_range(0, m.len() as int);
    vstd::set_lib::lemma_int_range(0, m.len() as int);
    let fr = |k: int| m[k].0 as int;
    assert(vstd::relations::injective_on(fr, dom)) by {
        assert forall|x: int, y: int| dom.contains(x) && dom.contains(y) && #[trigger] fr(x) == #[trigger] fr(y) implies x
            == y by {
            if x != y {
                assert(m[x].0 != m[y].0);
            }
        }
    }
    let ir = dom.map(fr);
    vstd::set_lib::lemma_map_size(dom, ir, fr);
    assert(ir =~= paired_rows_below(m, rows)) by {
        assert forall|x: int| ir.contains(x) implies paired_rows_below(m, rows).contains(x) by {
            let k = choose|k: int| dom.contains(k) && fr(k) == x;
            assert(m[k].0 == x);
        }
        assert forall|x: int| paired_rows_below(m, rows).contains(x) implies ir.contains(x) by {
            let k = choose|k: int| 0 <= k < m.len() && (#[trigger] m[k]).0 == x;
            assert(dom.contains(k) && fr(k) == x);
        }
    }
}

/// Below `b`, every count `t` of unpaired rows is reached at an unpaired
/// row.
proof fn lemma_unpaired_row_at(m: Seq<(usize, usize)>, b: int, t: int)
    requires
        0 <= t < unpaired_below(m, b),
    ensures
        exists|r: int| 0 <= r < b && !row_paired(m, r) && #[trigger] unpaired_below(m, r) == t,
    decreases b,
{
    if b > 0 {
        if t < unpaired_below(m, b - 1) {
            lemma_unpaired_row_at(m, b - 1, t);
            let r = choose|r: int| 0 <= r < b - 1 && !row_paired(m, r) && #[trigger] unpaired_below(m, r) == t;
            assert(0 <= r < b);
        } else {
            assert(!row_paired(m, b - 1) && unpaired_below(m, b - 1) == t);
        }
    }
}

/// The unpaired row that comes `t`-th.
pub open spec fn unpaired_row(m: Seq<(usize, usize)>, rows: int, t: int) -> int {
    choose|r: int| 0 <= r < rows && !row_paired(m, r) && #[trigger] unpaired_below(m, r) == t
}

/// The permutation of the padded square matrix that a matching pairing
/// every column extends: each real column keeps its row, and the padding
/// columns take the unpaired rows in order.
pub open spec fn perm_of_column_matching(m: Seq<(usize, usize)>, rows: int, cols: int) -> Seq<int> {
    Seq::new(rows as nat, |j: int| if j < cols { m[j].0 as int } else { unpaired_row(m, rows, j - cols) })
}

/// A matching that pairs every column lists the columns in order.
proof fn lemma_columns_in_order(m: Seq<(usize, usize)>, rows: int, cols: int)
    requires
        0 <= cols <= rows,
        is_matching(m, rows, cols),
        m.len() == cols,
    ensures
        forall|k: int| 0 <= k < cols ==> (#[trigger] m[k]).1 == k,
{
    assert forall|k: int| 0 <= k < cols implies (#[trigger] m[k]).1 >= k by {
        lemma_column_lower(m, rows, cols, k);
    }
    assert forall|k: int| 0 <= k < cols implies (#[trigger] m[k]).1 <= k by {
        lemma_column_upper(m, rows, cols, k);
    }
}

proof fn lemma_column_lower(m: Seq<(usize, usize)>, rows: int, cols: int, k: int)
    requires
        is_matching(m, rows, cols),
        0 <= k < m.len(),
    ensures
        m[k].1 >= k,
    decreases k,
{
    if k > 0 {
        lemma_column_lower(m, rows, cols, k - 1);
        assert(m[k - 1].1 < m[k].1);
    }
}

proof fn lemma_column_upper(m: Seq<(usize, usize)>, rows: int, cols: int, k: int)
    requires
        is_matching(m, rows, cols),
        m.len() == cols,
        0 <= k < m.len(),
    ensures
        m[k].1 <= k,
    decreases m.len() - k,
{
    if k < m.len() - 1 {
        lemma_column_upper(m, rows, cols, k + 1);
        assert(m[k].1 < m[k + 1].1);
    }
}

/// The padded cost of the first `j` columns under
/// `perm_of_column_matching`.
#[verifier::spinoff_prover]
#[verifier::rlimit(40)]
proof fn lemma_column_cost_prefix(cost: Seq<Vec<u32>>, rows: int, cols: int, pad_cost: u32, m: Seq<(usize, usize)>, j: int)
    requires
        0 <= cols <= rows,
        is_matching(m, rows, cols),
        m.len() == cols,
        forall|k: int| 0 <= k < cols ==> (#[trigger] m[k]).1 == k,
        0 <= j <= rows,
    ensures
        sum_to(padded_terms(cost, rows, cols, pad_cost, perm_of_column_matching(m, rows, cols)), j) == if j <= cols {
            assignment_cost(cost, m.take(j))
        } else {
            assignment_cost(cost, m) + pad_cost * (j - cols)
        },
    decreases j,
{
    let perm = perm_of_column_matching(m, rows, cols);
    let g = padded_terms(cost, rows, cols, pad_cost, perm);
    if j == 0 {
        assert(m.take(0) =~= Seq::<(usize, usize)>::empty());
    } else {
        lemma_column_cost_prefix(cost, rows, cols, pad_cost, m, j - 1);
        assert(sum_to(g, j) == sum_to(g, j - 1) + g(j - 1));
        let c = j - 1;
        if c < cols {
            assert(perm[c] == m[c].0 as int);
            assert(m[c].1 == c);
            assert(g(c) == cost[m[c].0 as int]@[c] as int);
            assert(m.take(j).drop_last() =~= m.take(c));
            assert(m.take(j).last() == m[c]);
            if j == cols {
                assert(m.take(j) =~= m);
            }
        } else {
            assert(g(c) == pad_cost as int);
            if c == cols {
                assert(m.take(c) =~= m);
                assert(sum_to(g, c) == assignment_cost(cost, m));
                assert(pad_cost * (j - cols) == pad_cost as int) by (nonlinear_arith)
                    requires
                        j == cols + 1,
                ;
            } else {
                assert(sum_to(g, c) == assignment_cost(cost, m) + pad_cost * (c - cols));
            }
            assert(pad_cost * (j - cols) == pad_cost * (c - cols) + pad_cost) by (nonlinear_arith)
                requires
                    j == c + 1,
            ;
        }
    }
}

/// A matching that pairs every column extends to a permutation of the
/// padded square matrix whose cost is the matching's plus the padding.
pub proof fn lemma_perm_of_column_matching(
    cost: Seq<Vec<u32>>,
    rows: int,
    cols: int,
    pad_cost: u32,
    m: Seq<(usize, usize)>,
)
    requires
        0 <= cols <= rows,
        is_matching(m, rows, cols),
        covers_cols(m, cols),
    ensures
        m.len() == cols,
        is_permutation(perm_of_column_matching(m, rows, cols), rows),
        padded_total(cost, rows, cols, pad_cost, perm_of_column_matching(m, rows, cols)) == assignment_cost(cost, m)
            + pad_cost * (rows - m.len()),
{
    lemma_unpaired_total(m, rows, cols);
    lemma_columns_in_order(m, rows, cols);
    let perm = perm_of_column_matching(m, rows, cols);
    assert forall|j: int| cols <= j < rows implies 0 <= #[trigger] perm[j] < rows && !row_paired(m, perm[j])
        && unpaired_below(m, perm[j]) == j - cols by {
        lemma_unpaired_row_at(m, rows, j - cols);
    }
    assert forall|j: int| 0 <= j < cols implies 0 <= #[trigger] perm[j] < rows && row_paired(m, perm[j]) by {
        assert(m[j].0 < rows);
    }
    assert forall|j1: int, j2: int| 0 <= j1 < rows && 0 <= j2 < rows && j1 != j2 implies #[trigger] perm[j1]
        != #[trigger] perm[j2] by {
        if j1 < cols && j2 < cols {
            assert(m[j1].0 != m[j2].0);
        }
    }
    assert(is_permutation(perm, rows));
    lemma_column_cost_prefix(cost, rows, cols, pad_cost, m, rows);
    if rows == cols {
        assert(m.take(rows) =~= m);
    }
}

/// An assignment that pairs every column and costs, with its padding, no
/// more than any permutation of the padded square matrix costs no more than
/// any other matching that pairs every column.
pub proof fn lemma_cheapest_over_column_matchings(
    cost: Seq<Vec<u32>>,
    rows: int,
    cols: int,
    pad_cost: u32,
    res: Seq<(usize, usize)>,
    m: Seq<(usize, usize)>,
)
    requires
        0 <= cols <= rows,
        res.len() == cols,
        is_matching(m, rows, cols),
        covers_cols(m, cols),
        forall|perm: Seq<int>|
            is_permutation(perm, rows) ==> assignment_cost(cost, res) + pad_cost * (rows - res.len())
                <= #[trigger] padded_total(cost, rows, cols, pad_cost, perm),
    ensures
        assignment_cost(cost, res) <= assignment_cost(cost, m),
{
    lemma_perm_of_column_matching(cost, rows, cols, pad_cost, m);
    let perm = perm_of_column_matching(m, rows, cols);
    assert(assignment_cost(cost, res) + pad_cost * (rows - res.len()) <= padded_total(cost, rows, cols, pad_cost, perm));
}

} // verus!
