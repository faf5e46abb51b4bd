use crate::table::{
    column_total, lemma_cell_le_row_total, lemma_row_total_le_table_total, row_total, table_total,
    ContingencyTable,
};
use vstd::prelude::*;

verus! {

/// Why a table does not admit a power-divergence test.
#[derive(Debug, Clone, Copy, PartialEq, Eq, Structural)]
pub enum ContingencyError {
    /// The table has no cells.
    NoData,
    /// All counts are zero.
    ZeroTotal,
    /// The expected frequency `row_total * column_total / total` of this cell
    /// is zero: its whole row or its whole column is empty.
    ZeroExpected { row: usize, col: usize },
}

/// Degrees of freedom of an `nrows` by `ncols` table: `(nrows - 1) * (ncols - 1)`,
/// and 0 when the table has fewer than two rows or columns.
pub open spec fn degrees_of_freedom(nrows: nat, ncols: nat) -> nat {
    if nrows < 2 || ncols < 2 {
        0
    } else {
        ((nrows - 1) * (ncols - 1)) as nat
    }
}

/// The expected frequency of cell `(i, j)` is zero: row `i` or column `j` is empty.
pub open spec fn expected_is_zero(t: Seq<Seq<usize>>, i: int, j: int) -> bool {
    row_total(t[i]) == 0 || column_total(t, j) == 0
}

/// Cell `(a, b)` comes before cell `(i, j)` when the table is read row by row.
pub open spec fn cell_before(a: int, b: int, i: int, j: int) -> bool {
    a < i || (a == i && b < j)
}

/// `(i, j)` is the first cell, row by row, whose expected frequency is zero.
pub open spec fn is_first_zero_expected(t: Seq<Seq<usize>>, ncols: nat, i: int, j: int) -> bool {
    &&& 0 <= i < t.len()
    &&& 0 <= j < ncols
    &&& expected_is_zero(t, i, j)
    &&& forall|a: int, b: int|
        0 <= a < t.len() && 0 <= b < ncols && cell_before(a, b, i, j) ==> !expected_is_zero(
            t,
            a,
            b,
        )
}

/// Some cell of the table has a zero expected frequency.
pub open spec fn has_zero_expected(t: Seq<Seq<usize>>, ncols: nat) -> bool {
    exists|i: int, j: int| 0 <= i < t.len() && 0 <= j < ncols && expected_is_zero(t, i, j)
}

/// The outcome of checking a table with `ncols` columns: in this order, no
/// cells, no observations, or a cell with zero expected frequency (the first,
/// row by row) reject it; otherwise it has `degrees_of_freedom` degrees of freedom.
pub open spec fn table_check(t: Seq<Seq<usize>>, ncols: nat) -> Result<usize, ContingencyError> {
    if t.len() == 0 || ncols == 0 {
        Err(ContingencyError::NoData)
    } else if table_total(t) == 0 {
        Err(ContingencyError::ZeroTotal)
    } else if has_zero_expected(t, ncols) {
        let (i, j) = choose|i: int, j: int| is_first_zero_expected(t, ncols, i, j);
        Err(ContingencyError::ZeroExpected { row: i as usize, col: j as usize })
    } else {
        Ok(degrees_of_freedom(t.len(), ncols) as usize)
    }
}

// ---------------------------------------------------------------------------
// Lemmas
// ---------------------------------------------------------------------------

proof fn lemma_row_total_take(row: Seq<usize>, k: int)
    requires
        0 <= k < row.len(),
    ensures
        row_total(row.take(k + 1)) == row_total(row.take(k)) + row[k],
{
    assert(row.take(k + 1).drop_last() =~= row.take(k));
}

proof fn lemma_row_total_take_le(row: Seq<usize>, k: int)
    requires
        0 <= k <= row.len(),
    ensures
        row_total(row.take(k)) <= row_total(row),
    decreases row.len(),
{
    if k == row.len() {
        assert(row.take(k) =~= row);
    } else {
        assert(row.drop_last().take(k) =~= row.take(k));
        lemma_row_total_take_le(row.drop_last(), k);
    }
}

proof fn lemma_table_total_take(t: Seq<Seq<usize>>, k: int)
    requires
        0 <= k < t.len(),
    ensures
        table_total(t.take(k + 1)) == table_total(t.take(k)) + row_total(t[k]),
{
    assert(t.take(k + 1).drop_last() =~= t.take(k));
}

proof fn lemma_table_total_take_le(t: Seq<Seq<usize>>, k: int)
    requires
        0 <= k <= t.len(),
    ensures
        table_total(t.take(k)) <= table_total(t),
    decreases t.len(),
{
    if k == t.len() {
        assert(t.take(k) =~= t);
    } else {
        assert(t.drop_last().take(k) =~= t.take(k));
        lemma_table_total_take_le(t.drop_last(), k);
    }
}

proof fn lemma_column_total_take(t: Seq<Seq<usize>>, k: int, j: int)
    requires
        0 <= k < t.len(),
    ensures
        column_total(t.take(k + 1), j) == column_total(t.take(k), j) + t[k][j],
{
    assert(t.take(k + 1).drop_last() =~= t.take(k));
}

/// A column adds up to no more than the whole table.
pub proof fn lemma_column_total_le_table_total(t: Seq<Seq<usize>>, j: int)
    requires
        0 <= j,
        forall|r: int| 0 <= r < t.len() ==> j < #[trigger] t[r].len(),
    ensures
        column_total(t, j) <= table_total(t),
    decreases t.len(),
{
    if t.len() > 0 {
        lemma_column_total_le_table_total(t.drop_last(), j);
        lemma_cell_le_row_total(t.last(), j);
    }
}

proof fn lemma_column_total_take_le(t: Seq<Seq<usize>>, k: int, j: int)
    requires
        0 <= k <= t.len(),
        0 <= j,
        forall|r: int| 0 <= r < t.len() ==> j < #[trigger] t[r].len(),
    ensures
        column_total(t.take(k), j) <= table_total(t),
{
    lemma_table_total_take_le(t, k);
    lemma_column_total_le_table_total(t.take(k), j);
}

/// At most one cell is the first with a zero expected frequency.
proof fn lemma_first_zero_expected_unique(
    t: Seq<Seq<usize>>,
    ncols: nat,
    i1: int,
    j1: int,
    i2: int,
    j2: int,
)
    requires
        is_first_zero_expected(t, ncols, i1, j1),
        is_first_zero_expected(t, ncols, i2, j2),
    ensures
        i1 == i2 && j1 == j2,
{
    if cell_before(i1, j1, i2, j2) {
    } else if cell_before(i2, j2, i1, j1) {
    }
}

// ---------------------------------------------------------------------------
// Sums and the check
// ---------------------------------------------------------------------------

impl ContingencyTable {
    /// The total count of each row.
    pub fn row_sums(&self) -> (sums: Vec<usize>)
        requires
            self.wf(),
        ensures
            sums@.len() == self.rows@.len(),
            forall|i: int| 0 <= i < sums@.len() ==> #[trigger] sums@[i] == row_total(self.cells()[i]),
    {
        let ghost t = self.cells();
        let mut sums: Vec<usize> = Vec::new();
        let mut i: usize = 0;
        while i < self.rows.len()
            invariant
                self.wf(),
                t == self.cells(),
                i <= self.rows@.len(),
                sums@.len() == i,
                forall|a: int| 0 <= a < i ==> #[trigger] sums@[a] == row_total(t[a]),
            decreases self.rows@.len() - i,
        {
            let row = &self.rows[i];
            assert(row@ == t[i as int]);
            let mut s: usize = 0;
            let mut j: usize = 0;
            while j < row.len()
                invariant
                    self.wf(),
                    t == self.cells(),
                    i < t.len(),
                    row@ == t[i as int],
                    j <= row@.len(),
                    s == row_total(row@.take(j as int)),
                decreases row@.len() - j,
            {
                proof {
                    lemma_row_total_take(row@, j as int);
                    lemma_row_total_take_le(row@, j + 1);
                    lemma_row_total_le_table_total(t, i as int);
                }
                s = s + row[j];
                j += 1;
            }
            assert(row@.take(row@.len() as int) =~= row@);
            sums.push(s);
            i += 1;
        }
        sums
    }

    /// The total count of each column.
    pub fn col_sums(&self) -> (sums: Vec<usize>)
        requires
            self.wf(),
        ensures
            sums@.len() == self.ncols,
            forall|j: int| 0 <= j < sums@.len() ==> #[trigger] sums@[j] == column_total(self.cells(), j),
    {
        let ghost t = self.cells();
        let mut sums: Vec<usize> = Vec::new();
        let mut j: usize = 0;
        while j < self.ncols
            invariant
                j <= self.ncols,
                sums@.len() == j,
                forall|b: int| 0 <= b < j ==> #[trigger] sums@[b] == 0,
            decreases self.ncols - j,
        {
            sums.push(0);
            j += 1;
        }
        assert forall|b: int| 0 <= b < sums@.len() implies #[trigger] sums@[b] == column_total(t.take(0), b) by {}
        let mut i: usize = 0;
        while i < self.rows.len()
            invariant
                self.wf(),
                t == self.cells(),
                i <= self.rows@.len(),
                sums@.len() == self.ncols,
                forall|b: int| 0 <= b < sums@.len() ==> #[trigger] sums@[b] == column_total(t.take(i as int), b),
            decreases self.rows@.len() - i,
        {
            let row = &self.rows[i];
            assert(row@ == t[i as int]);
            let mut j: usize = 0;
            while j < self.ncols
                invariant
                    self.wf(),
                    t == self.cells(),
                    i < t.len(),
                    row@ == t[i as int],
                    j <= self.ncols,
                    sums@.len() == self.ncols,
                    forall|b: int| 0 <= b < j ==> #[trigger] sums@[b] == column_total(t.take(i + 1), b),
                    forall|b: int| j <= b < sums@.len() ==> #[trigger] sums@[b] == column_total(t.take(i as int), b),
                decreases self.ncols - j,
            {
                proof {
                    lemma_column_total_take(t, i as int, j as int);
                    lemma_column_total_take_le(t, i + 1, j as int);
                }
                let v = sums[j] + row[j];
                sums.set(j, v);
                j += 1;
            }
            i += 1;
        }
        assert(t.take(t.len() as int) =~= t);
        sums
    }

    /// Whether the table is well formed: every row has `ncols` counts, the
    /// number of cells fits in `usize` and so does the sum of the counts.
    pub fn is_well_formed(&self) -> (ok: bool)
        ensures
            ok == self.wf(),
    {
        let ghost t = self.cells();
        let mut i: usize = 0;
        while i < self.rows.len()
            invariant
                t == self.cells(),
                i <= self.rows@.len(),
                forall|a: int| 0 <= a < i ==> #[trigger] self.rows@[a]@.len() == self.ncols,
            decreases self.rows@.len() - i,
        {
            if self.rows[i].len() != self.ncols {
                return false;
            }
            i += 1;
        }
        if self.rows.len().checked_mul(self.ncols).is_none() {
            return false;
        }
        let mut total: usize = 0;
        let mut i: usize = 0;
        while i < self.rows.len()
            invariant
                t == self.cells(),
                i <= t.len(),
                total == table_total(t.take(i as int)),
            decreases t.len() - i,
        {
            let row = &self.rows[i];
            assert(row@ == t[i as int]);
            let mut j: usize = 0;
            while j < row.len()
                invariant
                    t == self.cells(),
                    i < t.len(),
                    row@ == t[i as int],
                    j <= row@.len(),
                    total == table_total(t.take(i as int)) + row_total(row@.take(j as int)),
                decreases row@.len() - j,
            {
                proof {
                    lemma_row_total_take(row@, j as int);
                }
                match total.checked_add(row[j]) {
                    Some(v) => {
                        total = v;
                    },
                    None => {
                        proof {
                            lemma_row_total_take_le(row@, j + 1);
                            lemma_table_total_take(t, i as int);
                            lemma_table_total_take_le(t, i + 1);
                        }
                        return false;
                    },
                }
                j += 1;
            }
            proof {
                assert(row@.take(row@.len() as int) =~= row@);
                lemma_table_total_take(t, i as int);
            }
            i += 1;
        }
        assert(t.take(t.len() as int) =~= t);
        true
    }

    /// The sum of all counts.
    pub fn total(&self) -> (total: usize)
        requires
            self.wf(),
        ensures
            total == table_total(self.cells()),
    {
        let ghost t = self.cells();
        let sums = self.row_sums();
        let mut total: usize = 0;
        let mut i: usize = 0;
        while i < sums.len()
            invariant
                self.wf(),
                t == self.cells(),
                sums@.len() == t.len(),
                forall|a: int| 0 <= a < sums@.len() ==> #[trigger] sums@[a] == row_total(t[a]),
                i <= sums@.len(),
                total == table_total(t.take(i as int)),
            decreases sums@.len() - i,
        {
            proof {
                lemma_table_total_take(t, i as int);
                lemma_table_total_take_le(t, i + 1);
            }
            total = total + sums[i];
            i += 1;
        }
        assert(t.take(t.len() as int) =~= t);
        total
    }
}

/// Check that a table admits a power-divergence test and return its degrees
/// of freedom. A table is rejected when it has no cells, when all its counts
/// are zero, or when some cell has a zero expected frequency; the first such
/// cell, row by row, is reported.
pub fn check_table(table: &ContingencyTable) -> (res: Result<usize, ContingencyError>)
    requires
        table.wf(),
    ensures
        res == table_check(table.cells(), table.ncols as nat),
        res is Ok <==> {
            &&& table.rows@.len() > 0
            &&& table.ncols > 0
            &&& forall|i: int| 0 <= i < table.rows@.len() ==> row_total(#[trigger] table.cells()[i]) > 0
            &&& forall|j: int| 0 <= j < table.ncols ==> #[trigger] column_total(table.cells(), j) > 0
        },
{
    let ghost t = table.cells();
    let nrows = table.rows.len();
    proof {
        assert(t.len() == nrows);
        crate::laws::lemma_table_check_meaning(t, table.ncols as nat);
    }
    let ncols = table.ncols;
    if nrows == 0 || ncols == 0 {
        return Err(ContingencyError::NoData);
    }
    let total = table.total();
    if total == 0 {
        return Err(ContingencyError::ZeroTotal);
    }
    let row_sums = table.row_sums();
    let col_sums = table.col_sums();
    let mut i: usize = 0;
    while i < nrows
        invariant
            t == table.cells(),
            table_total(t) > 0,
            nrows == t.len(),
            ncols == table.ncols,
            row_sums@.len() == nrows,
            col_sums@.len() == ncols,
            forall|a: int| 0 <= a < nrows ==> #[trigger] row_sums@[a] == row_total(t[a]),
            forall|b: int| 0 <= b < ncols ==> #[trigger] col_sums@[b] == column_total(t, b),
            i <= nrows,
            forall|a: int, b: int| 0 <= a < i && 0 <= b < ncols ==> !expected_is_zero(t, a, b),
        decreases nrows - i,
    {
        let mut j: usize = 0;
        while j < ncols
            invariant
                t == table.cells(),
                table_total(t) > 0,
                nrows == t.len(),
                ncols == table.ncols,
                row_sums@.len() == nrows,
                col_sums@.len() == ncols,
                forall|a: int| 0 <= a < nrows ==> #[trigger] row_sums@[a] == row_total(t[a]),
                forall|b: int| 0 <= b < ncols ==> #[trigger] col_sums@[b] == column_total(t, b),
                i < nrows,
                j <= ncols,
                forall|a: int, b: int| 0 <= a < i && 0 <= b < ncols ==> !expected_is_zero(t, a, b),
                forall|b: int| 0 <= b < j ==> !expected_is_zero(t, i as int, b),
            decreases ncols - j,
        {
            if row_sums[i] == 0 || col_sums[j] == 0 {
                proof {
                    assert(is_first_zero_expected(t, ncols as nat, i as int, j as int));
                    assert(has_zero_expected(t, ncols as nat));
                    let (a, b) = choose|a: int, b: int| is_first_zero_expected(t, ncols as nat, a, b);
                    lemma_first_zero_expected_unique(t, ncols as nat, a, b, i as int, j as int);
                }
                return Err(ContingencyError::ZeroExpected { row: i, col: j });
            }
            j += 1;
        }
        i += 1;
    }
    assert(!has_zero_expected(t, ncols as nat));
    if nrows < 2 || ncols < 2 {
        Ok(0)
    } else {
        assert((nrows - 1) * (ncols - 1) <= nrows * ncols) by (nonlinear_arith)
            requires
                nrows >= 2,
                ncols >= 2,
        ;
        Ok((nrows - 1) * (ncols - 1))
    }
}

} // verus!
