use crate::category::{
    build_global_category_map, category_map, lemma_category_map_len, lemma_category_rank_bounds,
};
use std::collections::HashMap;
use vstd::prelude::*;

verus! {

broadcast use vstd::std_specs::hash::group_hash_axioms;

/// Sum of the counts in one row.
pub open spec fn row_total(row: Seq<usize>) -> nat
    decreases row.len(),
{
    if row.len() == 0 {
        0
    } else {
        row_total(row.drop_last()) + row.last() as nat
    }
}

/// Sum of all counts of a table given by its rows.
pub open spec fn table_total(t: Seq<Seq<usize>>) -> nat
    decreases t.len(),
{
    if t.len() == 0 {
        0
    } else {
        table_total(t.drop_last()) + row_total(t.last())
    }
}

/// Sum of the counts in column `j`.
pub open spec fn column_total(t: Seq<Seq<usize>>, j: int) -> nat
    decreases t.len(),
{
    if t.len() == 0 {
        0
    } else {
        column_total(t.drop_last(), j) + t.last()[j] as nat
    }
}

/// Observation `(x, y)` falls in row `r` and column `c` under the maps.
pub open spec fn pair_hits(
    x: u64,
    y: u64,
    map1: Map<u64, usize>,
    map2: Map<u64, usize>,
    r: int,
    c: int,
) -> bool {
    &&& map1.contains_key(x)
    &&& map2.contains_key(y)
    &&& map1[x] == r
    &&& map2[y] == c
}

/// How many of the first `n` observations `(xs[i], ys[i])` fall in cell `(r, c)`.
pub open spec fn pair_count_upto(
    xs: Seq<u64>,
    ys: Seq<u64>,
    map1: Map<u64, usize>,
    map2: Map<u64, usize>,
    n: nat,
    r: int,
    c: int,
) -> nat
    decreases n,
{
    if n == 0 {
        0
    } else {
        let i = (n - 1) as nat;
        pair_count_upto(xs, ys, map1, map2, i, r, c) + if pair_hits(
            xs[i as int],
            ys[i as int],
            map1,
            map2,
            r,
            c,
        ) {
            1nat
        } else {
            0nat
        }
    }
}

/// How many of the observations `(xs[i], ys[i])`, `i < xs.len()`, fall in cell `(r, c)`.
pub open spec fn pair_count(
    xs: Seq<u64>,
    ys: Seq<u64>,
    map1: Map<u64, usize>,
    map2: Map<u64, usize>,
    r: int,
    c: int,
) -> nat {
    pair_count_upto(xs, ys, map1, map2, xs.len(), r, c)
}

/// How many of the first `n` observations have both values in the maps.
pub open spec fn found_upto(
    xs: Seq<u64>,
    ys: Seq<u64>,
    map1: Map<u64, usize>,
    map2: Map<u64, usize>,
    n: nat,
) -> nat
    decreases n,
{
    if n == 0 {
        0
    } else {
        let i = (n - 1) as nat;
        found_upto(xs, ys, map1, map2, i) + if map1.contains_key(xs[i as int])
            && map2.contains_key(ys[i as int]) {
            1nat
        } else {
            0nat
        }
    }
}

/// Every observation that both maps know lands in a row and a column of the table.
pub open spec fn categories_in_range(
    xs: Seq<u64>,
    ys: Seq<u64>,
    map1: Map<u64, usize>,
    map2: Map<u64, usize>,
) -> bool {
    forall|i: int|
        0 <= i < xs.len() && map1.contains_key(xs[i]) && map2.contains_key(#[trigger] ys[i])
            ==> map1[xs[i]] < map1.len() && map2[ys[i]] < map2.len()
}

/// A two-way table of counts: `rows[r][c]` counts the observations in row
/// category `r` and column category `c`.
pub struct ContingencyTable {
    pub rows: Vec<Vec<usize>>,
    pub ncols: usize,
}

impl ContingencyTable {
    /// The counts, row by row.
    pub open spec fn cells(&self) -> Seq<Seq<usize>> {
        self.rows@.map_values(|r: Vec<usize>| r@)
    }

    /// Every row has `ncols` counts, the table has at most `usize::MAX` cells
    /// and its counts add up to at most `usize::MAX`.
    pub open spec fn wf(&self) -> bool {
        &&& forall|i: int| 0 <= i < self.rows@.len() ==> #[trigger] self.rows@[i]@.len() == self.ncols
        &&& self.rows@.len() * self.ncols <= usize::MAX
        &&& table_total(self.cells()) <= usize::MAX
    }

    /// The table holds, in row `r` and column `c`, how many observations
    /// `(xs[i], ys[i])` the maps send to `(r, c)`.
    pub open spec fn counts(
        &self,
        xs: Seq<u64>,
        ys: Seq<u64>,
        map1: Map<u64, usize>,
        map2: Map<u64, usize>,
    ) -> bool {
        &&& self.rows@.len() == map1.len()
        &&& self.ncols == map2.len()
        &&& forall|r: int, c: int|
            0 <= r < map1.len() && 0 <= c < map2.len() ==> #[trigger] self.cells()[r][c]
                == pair_count(xs, ys, map1, map2, r, c)
    }
}

/// The table of counts of the observations `(xs[i], ys[i])`, `i < xs.len()`,
/// with `map1.len()` rows and `map2.len()` columns.
pub open spec fn count_table(
    xs: Seq<u64>,
    ys: Seq<u64>,
    map1: Map<u64, usize>,
    map2: Map<u64, usize>,
) -> Seq<Seq<usize>> {
    Seq::new(
        map1.len(),
        |r: int| Seq::new(map2.len(), |c: int| pair_count(xs, ys, map1, map2, r, c) as usize),
    )
}

/// A well-formed table that counts the observations is `count_table` of them.
pub proof fn lemma_counts_cells(
    table: &ContingencyTable,
    xs: Seq<u64>,
    ys: Seq<u64>,
    map1: Map<u64, usize>,
    map2: Map<u64, usize>,
)
    requires
        table.wf(),
        table.counts(xs, ys, map1, map2),
    ensures
        table.cells() == count_table(xs, ys, map1, map2),
{
    let t = table.cells();
    let e = count_table(xs, ys, map1, map2);
    assert forall|r: int| 0 <= r < t.len() implies #[trigger] t[r] == e[r] by {
        assert(table.rows@[r]@.len() == table.ncols);
        assert forall|c: int| 0 <= c < t[r].len() implies t[r][c] == e[r][c] by {
            assert(t[r][c] == pair_count(xs, ys, map1, map2, r, c));
        }
        assert(t[r] =~= e[r]);
    }
    assert(t =~= e);
}

// ---------------------------------------------------------------------------
// Lemmas on sums of counts
// ---------------------------------------------------------------------------

proof fn lemma_row_total_update(row: Seq<usize>, c: int, v: usize)
    requires
        0 <= c < row.len(),
    ensures
        row_total(row.update(c, v)) + row[c] == row_total(row) + v,
    decreases row.len(),
{
    let u = row.update(c, v);
    if c == row.len() - 1 {
        assert(u.drop_last() =~= row.drop_last());
    } else {
        assert(u.drop_last() =~= row.drop_last().update(c, v));
        lemma_row_total_update(row.drop_last(), c, v);
    }
}

proof fn lemma_table_total_update(t: Seq<Seq<usize>>, r: int, row: Seq<usize>)
    requires
        0 <= r < t.len(),
    ensures
        table_total(t.update(r, row)) + row_total(t[r]) == table_total(t) + row_total(row),
    decreases t.len(),
{
    let u = t.update(r, row);
    if r == t.len() - 1 {
        assert(u.drop_last() =~= t.drop_last());
    } else {
        assert(u.drop_last() =~= t.drop_last().update(r, row));
        lemma_table_total_update(t.drop_last(), r, row);
    }
}

pub proof fn lemma_cell_le_row_total(row: Seq<usize>, c: int)
    requires
        0 <= c < row.len(),
    ensures
        row[c] <= row_total(row),
    decreases row.len(),
{
    if c < row.len() - 1 {
        lemma_cell_le_row_total(row.drop_last(), c);
    }
}

pub proof fn lemma_row_total_le_table_total(t: Seq<Seq<usize>>, r: int)
    requires
        0 <= r < t.len(),
    ensures
        row_total(t[r]) <= table_total(t),
    decreases t.len(),
{
    if r < t.len() - 1 {
        lemma_row_total_le_table_total(t.drop_last(), r);
    }
}

proof fn lemma_zero_row_total(row: Seq<usize>)
    requires
        forall|c: int| 0 <= c < row.len() ==> row[c] == 0,
    ensures
        row_total(row) == 0,
    decreases row.len(),
{
    if row.len() > 0 {
        lemma_zero_row_total(row.drop_last());
    }
}

proof fn lemma_zero_table_total(t: Seq<Seq<usize>>)
    requires
        forall|r: int| 0 <= r < t.len() ==> row_total(#[trigger] t[r]) == 0,
    ensures
        table_total(t) == 0,
    decreases t.len(),
{
    if t.len() > 0 {
        lemma_zero_table_total(t.drop_last());
    }
}

proof fn lemma_found_upto_le(
    xs: Seq<u64>,
    ys: Seq<u64>,
    map1: Map<u64, usize>,
    map2: Map<u64, usize>,
    n: nat,
)
    ensures
        found_upto(xs, ys, map1, map2, n) <= n,
    decreases n,
{
    if n > 0 {
        lemma_found_upto_le(xs, ys, map1, map2, (n - 1) as nat);
    }
}

// ---------------------------------------------------------------------------
// Building tables
// ---------------------------------------------------------------------------

/// A table of `nrows` rows of `ncols` zeros.
fn zero_table(nrows: usize, ncols: usize) -> (t: ContingencyTable)
    requires
        nrows * ncols <= usize::MAX,
    ensures
        t.wf(),
        t.rows@.len() == nrows,
        t.ncols == ncols,
        forall|r: int, c: int| 0 <= r < nrows && 0 <= c < ncols ==> #[trigger] t.cells()[r][c] == 0,
        table_total(t.cells()) == 0,
{
    let mut rows: Vec<Vec<usize>> = Vec::new();
    let mut r: usize = 0;
    while r < nrows
        invariant
            r <= nrows,
            rows@.len() == r,
            forall|i: int| 0 <= i < r ==> #[trigger] rows@[i]@.len() == ncols,
            forall|i: int, c: int| 0 <= i < r && 0 <= c < ncols ==> #[trigger] rows@[i]@[c] == 0,
        decreases nrows - r,
    {
        let mut row: Vec<usize> = Vec::new();
        let mut c: usize = 0;
        while c < ncols
            invariant
                c <= ncols,
                row@.len() == c,
                forall|j: int| 0 <= j < c ==> #[trigger] row@[j] == 0,
            decreases ncols - c,
        {
            row.push(0);
            c += 1;
        }
        rows.push(row);
        r += 1;
    }
    let t = ContingencyTable { rows, ncols };
    proof {
        assert forall|i: int| 0 <= i < t.cells().len() implies row_total(#[trigger] t.cells()[i]) == 0 by {
            lemma_zero_row_total(t.cells()[i]);
        }
        lemma_zero_table_total(t.cells());
    }
    t
}

/// Like `contingency_table`, but the rows and columns are fixed by the maps
/// passed in: `result[r][c]` counts the indices `i < col1.len()` with
/// `map1[col1[i]] == r` and `map2[col2[i]] == c`; observations that a map does
/// not know are left out.
pub fn contingency_table_with_categories(
    col1: &Vec<u64>,
    col2: &Vec<u64>,
    map1: &HashMap<u64, usize>,
    map2: &HashMap<u64, usize>,
) -> (table: ContingencyTable)
    requires
        col1.len() <= col2.len(),
        categories_in_range(col1@, col2@, map1@, map2@),
        map1@.len() * map2@.len() <= isize::MAX,
    ensures
        table.wf(),
        table.counts(col1@, col2@, map1@, map2@),
        table_total(table.cells()) == found_upto(col1@, col2@, map1@, map2@, col1@.len()),
{
    let nrows = map1.len();
    let ncols = map2.len();
    let mut table = zero_table(nrows, ncols);
    let mut i: usize = 0;
    while i < col1.len()
        invariant
            col1.len() <= col2.len(),
            categories_in_range(col1@, col2@, map1@, map2@),
            nrows == map1@.len(),
            ncols == map2@.len(),
            i <= col1.len(),
            table.wf(),
            table.rows@.len() == nrows,
            table.ncols == ncols,
            forall|r: int, c: int|
                0 <= r < nrows && 0 <= c < ncols ==> #[trigger] table.cells()[r][c]
                    == pair_count_upto(col1@, col2@, map1@, map2@, i as nat, r, c),
            table_total(table.cells()) == found_upto(col1@, col2@, map1@, map2@, i as nat),
        decreases col1.len() - i,
    {
        let x = col1[i];
        let y = col2[i];
        let ghost before = table.cells();
        proof {
            lemma_found_upto_le(col1@, col2@, map1@, map2@, i as nat);
        }
        match (map1.get(&x), map2.get(&y)) {
            (Some(r), Some(c)) => {
                let r = *r;
                let c = *c;
                assert(pair_hits(x, y, map1@, map2@, r as int, c as int));
                proof {
                    lemma_cell_le_row_total(before[r as int], c as int);
                    lemma_row_total_le_table_total(before, r as int);
                }
                let old_count = table.rows[r][c];
                table.rows[r][c] = old_count + 1;
                proof {
                    let new_row = before[r as int].update(c as int, (old_count + 1) as usize);
                    lemma_row_total_update(before[r as int], c as int, (old_count + 1) as usize);
                    lemma_table_total_update(before, r as int, new_row);
                    assert(table.cells() =~= before.update(r as int, new_row));
                    assert forall|a: int, b: int|
                        0 <= a < nrows && 0 <= b < ncols implies #[trigger] table.cells()[a][b]
                        == pair_count_upto(col1@, col2@, map1@, map2@, (i + 1) as nat, a, b) by {
                        if a == r && b == c {
                        } else {
                            assert(!pair_hits(x, y, map1@, map2@, a, b));
                        }
                    }
                }
            },
            _ => {
                proof {
                    assert forall|a: int, b: int|
                        0 <= a < nrows && 0 <= b < ncols implies #[trigger] table.cells()[a][b]
                        == pair_count_upto(col1@, col2@, map1@, map2@, (i + 1) as nat, a, b) by {
                        assert(!pair_hits(x, y, map1@, map2@, a, b));
                    }
                }
            },
        }
        i += 1;
    }
    table
}

/// The category maps of two columns place every observation inside the table.
proof fn lemma_category_maps_in_range(col1: Seq<u64>, col2: Seq<u64>)
    requires
        col1.len() <= col2.len(),
    ensures
        categories_in_range(col1, col2, category_map(col1), category_map(col2)),
        forall|n: nat| n <= col1.len() ==> found_upto(col1, col2, category_map(col1), category_map(col2), n) == n,
{
    let m1 = category_map(col1);
    let m2 = category_map(col2);
    lemma_category_map_len(col1);
    lemma_category_map_len(col2);
    assert forall|i: int|
        0 <= i < col1.len() && m1.contains_key(col1[i]) && m2.contains_key(#[trigger] col2[i])
        implies m1[col1[i]] < m1.len() && m2[col2[i]] < m2.len() by {
        lemma_category_rank_bounds(col1, col1[i]);
        lemma_category_rank_bounds(col2, col2[i]);
    }
    assert forall|n: nat| n <= col1.len() implies found_upto(col1, col2, m1, m2, n) == n by {
        lemma_found_all(col1, col2, n);
    }
}

proof fn lemma_found_all(col1: Seq<u64>, col2: Seq<u64>, n: nat)
    requires
        n <= col1.len() <= col2.len(),
    ensures
        found_upto(col1, col2, category_map(col1), category_map(col2), n) == n,
    decreases n,
{
    if n > 0 {
        lemma_found_all(col1, col2, (n - 1) as nat);
        assert(col1.contains(col1[n - 1]));
        assert(col2.contains(col2[n - 1]));
    }
}

/// Count how often each pair `(col1[i], col2[i])` occurs and return the counts
/// as a table. Rows and columns are the distinct values of `col1` and `col2`
/// in increasing order, so the result does not depend on the order of the
/// observations. Every observation is counted once.
pub fn contingency_table(col1: &Vec<u64>, col2: &Vec<u64>) -> (table: ContingencyTable)
    requires
        col1.len() <= col2.len(),
        col1@.to_set().len() * col2@.to_set().len() <= isize::MAX,
    ensures
        table.wf(),
        table.counts(col1@, col2@, category_map(col1@), category_map(col2@)),
        table.rows@.len() == col1@.to_set().len(),
        table.ncols == col2@.to_set().len(),
        table_total(table.cells()) == col1.len(),
{
    let col1_map = build_global_category_map(col1);
    let col2_map = build_global_category_map(col2);
    proof {
        lemma_category_maps_in_range(col1@, col2@);
        lemma_category_map_len(col1@);
        lemma_category_map_len(col2@);
    }
    contingency_table_with_categories(col1, col2, &col1_map, &col2_map)
}

} // verus!
