use crate::category::{
    build_global_category_map, category_map, lemma_category_map_len, lemma_category_rank_bounds,
};
use crate::check::{check_table, table_check, ContingencyError};
use crate::partition::{lemma_partition_prefix, partition_by, row_partition, KeyMatrix};
use crate::table::{
    categories_in_range, contingency_table, contingency_table_with_categories, count_table,
    lemma_counts_cells, ContingencyTable,
};
use vstd::prelude::*;

verus! {

/// The tables of counts (one per stratum that contributes) and their total
/// degrees of freedom.
pub type StrataView = (Seq<Seq<Seq<usize>>>, nat);

/// The values of `s` at the indices `idx`, in that order.
pub open spec fn gather(s: Seq<u64>, idx: Seq<usize>) -> Seq<u64> {
    Seq::new(idx.len(), |k: int| s[idx[k] as int])
}

/// The table of the observations of one stratum, with the rows and columns of
/// all of `xs` and `ys`, so that every stratum has the same shape.
pub open spec fn stratum_table(xs: Seq<u64>, ys: Seq<u64>, group: Seq<usize>) -> Seq<Seq<usize>> {
    count_table(gather(xs, group), gather(ys, group), category_map(xs), category_map(ys))
}

/// Strata taken in order: the first stratum whose table is rejected decides
/// the error; a stratum with zero degrees of freedom is left out; every other
/// stratum adds its table and its degrees of freedom.
pub open spec fn strata_outcome(groups: Seq<Seq<usize>>, xs: Seq<u64>, ys: Seq<u64>) -> Result<
    StrataView,
    ContingencyError,
>
    decreases groups.len(),
{
    if groups.len() == 0 {
        Ok((Seq::empty(), 0nat))
    } else {
        match strata_outcome(groups.drop_last(), xs, ys) {
            Err(e) => Err(e),
            Ok((ts, d)) => {
                let t = stratum_table(xs, ys, groups.last());
                match table_check(t, category_map(ys).len()) {
                    Err(e) => Err(e),
                    Ok(k) => if k == 0 {
                        Ok((ts, d))
                    } else {
                        Ok((ts.push(t), (d + k) as nat))
                    },
                }
            },
        }
    }
}

/// The tables and degrees of freedom of a power-divergence test of `xs` against
/// `ys` given the conditioning rows `z` with `zcols` columns. Without
/// conditioning columns there is one table of all observations; otherwise the
/// rows of `z` split the observations into strata.
pub open spec fn stratify_outcome(z: Seq<Seq<u64>>, zcols: nat, xs: Seq<u64>, ys: Seq<u64>) -> Result<
    StrataView,
    ContingencyError,
> {
    if zcols == 0 {
        let t = count_table(xs, ys, category_map(xs), category_map(ys));
        match table_check(t, category_map(ys).len()) {
            Err(e) => Err(e),
            Ok(k) => Ok((seq![t], k as nat)),
        }
    } else {
        strata_outcome(row_partition(z), xs, ys)
    }
}

/// Sum of a sequence of degrees of freedom.
pub open spec fn dof_sum(s: Seq<usize>) -> nat
    decreases s.len(),
{
    if s.len() == 0 {
        0
    } else {
        dof_sum(s.drop_last()) + s.last() as nat
    }
}

/// The tables of the strata that contribute to a power-divergence test, and
/// their total degrees of freedom.
pub struct Strata {
    pub tables: Vec<ContingencyTable>,
    pub degrees_of_freedom: u128,
}

impl Strata {
    /// The tables, as rows of counts.
    pub open spec fn table_cells(&self) -> Seq<Seq<Seq<usize>>> {
        self.tables@.map_values(|t: ContingencyTable| t.cells())
    }

    /// The strata hold exactly the tables `v.0`, each well formed with `ncols`
    /// columns, and `v.1` degrees of freedom.
    pub open spec fn describes(&self, v: StrataView, ncols: nat) -> bool {
        &&& self.table_cells() == v.0
        &&& self.degrees_of_freedom == v.1
        &&& forall|k: int| 0 <= k < self.tables@.len() ==> (#[trigger] self.tables@[k]).wf()
            && self.tables@[k].ncols == ncols
    }
}

proof fn lemma_dof_sum_take(s: Seq<usize>, k: int)
    requires
        0 <= k < s.len(),
    ensures
        dof_sum(s.take(k + 1)) == dof_sum(s.take(k)) + s[k],
{
    assert(s.take(k + 1).drop_last() =~= s.take(k));
}

/// The values at `idx`, which all lie inside `s`.
fn gather_values(s: &Vec<u64>, idx: &Vec<usize>) -> (out: Vec<u64>)
    requires
        forall|k: int| 0 <= k < idx@.len() ==> #[trigger] idx@[k] < s@.len(),
    ensures
        out@ == gather(s@, idx@),
{
    let mut out: Vec<u64> = Vec::new();
    let mut k: usize = 0;
    while k < idx.len()
        invariant
            forall|a: int| 0 <= a < idx@.len() ==> #[trigger] idx@[a] < s@.len(),
            k <= idx@.len(),
            out@ == gather(s@, idx@.take(k as int)),
        decreases idx@.len() - k,
    {
        out.push(s[idx[k]]);
        k += 1;
        assert(out@ =~= gather(s@, idx@.take(k as int)));
    }
    assert(idx@.take(idx@.len() as int) =~= idx@);
    out
}

/// The tables behind a power-divergence test of `x` against `y` given the
/// conditioning set `z`, with their degrees of freedom.
///
/// Without conditioning columns this is the contingency table of `x` and `y`.
/// Otherwise the rows of `z` split the observations into strata; each
/// stratum's table uses the rows and columns of all of `x` and `y`; the first
/// stratum whose table is rejected makes the whole test fail; strata with zero
/// degrees of freedom are left out and the others' degrees of freedom add up.
pub fn stratify(z: &KeyMatrix, x: &Vec<u64>, y: &Vec<u64>) -> (res: Result<Strata, ContingencyError>)
    requires
        z.ncols == 0 ==> x.len() <= y.len(),
        z.ncols > 0 ==> z.rows.len() <= x.len() && z.rows.len() <= y.len(),
        z.ncols == 0 || z.rows.len() > 0 ==> x@.to_set().len() * y@.to_set().len() <= isize::MAX,
    ensures
        res is Ok <==> stratify_outcome(z.keys(), z.ncols as nat, x@, y@) is Ok,
        res matches Err(e) ==> stratify_outcome(z.keys(), z.ncols as nat, x@, y@) == Err::<
            StrataView,
            ContingencyError,
        >(e),
        res matches Ok(s) ==> s.describes(
            stratify_outcome(z.keys(), z.ncols as nat, x@, y@)->Ok_0,
            y@.to_set().len(),
        ),
        z.ncols > 0 ==> (res is Ok <==> forall|k: int|
            0 <= k < row_partition(z.keys()).len() ==> (table_check(
                stratum_table(x@, y@, #[trigger] row_partition(z.keys())[k]),
                y@.to_set().len(),
            ) is Ok)),
{
    proof {
        crate::laws::lemma_stratify_needs_every_stratum(z.keys(), z.ncols as nat, x@, y@);
    }
    let ghost xm = category_map(x@);
    let ghost ym = category_map(y@);
    proof {
        lemma_category_map_len(x@);
        lemma_category_map_len(y@);
    }
    if z.ncols == 0 {
        let table = contingency_table(x, y);
        proof {
            lemma_counts_cells(&table, x@, y@, xm, ym);
        }
        match check_table(&table) {
            Err(e) => {
                return Err(e);
            },
            Ok(dof) => {
                let mut tables: Vec<ContingencyTable> = Vec::new();
                tables.push(table);
                let s = Strata { tables, degrees_of_freedom: dof as u128 };
                assert(s.table_cells() =~= seq![table.cells()]);
                return Ok(s);
            },
        }
    }
    let x_map = build_global_category_map(x);
    let y_map = build_global_category_map(y);
    let groups = partition_by(z);
    let ghost keys = z.keys();
    let ghost g = row_partition(keys);
    proof {
        lemma_partition_prefix(keys, keys.len());
    }
    let mut tables: Vec<ContingencyTable> = Vec::new();
    let mut dofs: Vec<usize> = Vec::new();
    let mut k: usize = 0;
    assert(g.take(0) =~= Seq::<Seq<usize>>::empty());
    assert(tables@.map_values(|t: ContingencyTable| t.cells()) =~= Seq::<Seq<Seq<usize>>>::empty());
    while k < groups.len()
        invariant
            z.ncols > 0,
            z.rows.len() <= x.len(),
            z.rows.len() <= y.len(),
            z.rows.len() > 0 ==> x@.to_set().len() * y@.to_set().len() <= isize::MAX,
            keys == z.keys(),
            g == row_partition(keys),
            crate::partition::is_row_partition(keys, keys.len(), g),
            groups@.map_values(|v: Vec<usize>| v@) == g,
            x_map@ == xm,
            y_map@ == ym,
            xm == category_map(x@),
            ym == category_map(y@),
            xm.len() == x@.to_set().len(),
            ym.len() == y@.to_set().len(),
            k <= groups@.len(),
            strata_outcome(g.take(k as int), x@, y@) == Ok::<StrataView, ContingencyError>(
                (tables@.map_values(|t: ContingencyTable| t.cells()), dof_sum(dofs@)),
            ),
            forall|a: int| 0 <= a < tables@.len() ==> (#[trigger] tables@[a]).wf() && tables@[a].ncols
                == ym.len(),
        decreases groups@.len() - k,
    {
        let group = &groups[k];
        assert(group@ == g[k as int]);
        assert(group@.len() > 0);
        assert forall|m: int| 0 <= m < group@.len() implies #[trigger] group@[m] < x@.len() by {
            assert(g[k as int][m] < keys.len());
        }
        assert forall|m: int| 0 <= m < group@.len() implies #[trigger] group@[m] < y@.len() by {
            assert(g[k as int][m] < keys.len());
        }
        let x_sub = gather_values(x, group);
        let y_sub = gather_values(y, group);
        proof {
            assert(group@[0] < keys.len());
            assert forall|i: int|
                0 <= i < x_sub@.len() && xm.contains_key(x_sub@[i]) && ym.contains_key(
                    #[trigger] y_sub@[i],
                ) implies xm[x_sub@[i]] < xm.len() && ym[y_sub@[i]] < ym.len() by {
                assert(x@.contains(x@[group@[i] as int]));
                assert(y@.contains(y@[group@[i] as int]));
                lemma_category_rank_bounds(x@, x_sub@[i]);
                lemma_category_rank_bounds(y@, y_sub@[i]);
            }
            assert(categories_in_range(x_sub@, y_sub@, x_map@, y_map@));
        }
        let table = contingency_table_with_categories(&x_sub, &y_sub, &x_map, &y_map);
        proof {
            lemma_counts_cells(&table, x_sub@, y_sub@, xm, ym);
            assert(g.take(k + 1).drop_last() =~= g.take(k as int));
            assert(g.take(k + 1).last() == g[k as int]);
            assert(table.cells() == stratum_table(x@, y@, g[k as int]));
        }
        match check_table(&table) {
            Err(e) => {
                proof {
                    lemma_strata_error_persists(g, x@, y@, k + 1, e);
                    assert(g.take(g.len() as int) =~= g);
                }
                return Err(e);
            },
            Ok(d) => {
                if d > 0 {
                    let ghost before_tables = tables@;
                    let ghost before_dofs = dofs@;
                    tables.push(table);
                    dofs.push(d);
                    proof {
                        assert(tables@.map_values(|t: ContingencyTable| t.cells()) =~= before_tables.map_values(
                            |t: ContingencyTable| t.cells(),
                        ).push(table.cells()));
                        assert(dofs@.drop_last() =~= before_dofs);
                    }
                }
            },
        }
        k += 1;
    }
    assert(g.take(groups@.len() as int) =~= g);
    let mut total: u128 = 0;
    let mut j: usize = 0;
    while j < dofs.len()
        invariant
            j <= dofs@.len(),
            total == dof_sum(dofs@.take(j as int)),
            dof_sum(dofs@.take(j as int)) <= j * usize::MAX,
        decreases dofs@.len() - j,
    {
        proof {
            lemma_dof_sum_take(dofs@, j as int);
            assert((j + 1) * usize::MAX <= usize::MAX * usize::MAX + usize::MAX) by (nonlinear_arith)
                requires
                    j < usize::MAX,
            ;
            assert(usize::MAX * usize::MAX + usize::MAX <= u128::MAX) by (nonlinear_arith)
                requires
                    usize::MAX <= u64::MAX,
            ;
        }
        total = total + dofs[j] as u128;
        j += 1;
    }
    assert(dofs@.take(dofs@.len() as int) =~= dofs@);
    Ok(Strata { tables, degrees_of_freedom: total })
}

/// Once a prefix of the strata is rejected, every longer prefix is rejected
/// with the same error.
proof fn lemma_strata_error_persists(
    groups: Seq<Seq<usize>>,
    xs: Seq<u64>,
    ys: Seq<u64>,
    n: int,
    e: ContingencyError,
)
    requires
        0 <= n <= groups.len(),
        strata_outcome(groups.take(n), xs, ys) == Err::<StrataView, ContingencyError>(e),
    ensures
        strata_outcome(groups, xs, ys) == Err::<StrataView, ContingencyError>(e),
    decreases groups.len() - n,
{
    if n == groups.len() {
        assert(groups.take(n) =~= groups);
    } else {
        assert(groups.take(n + 1).drop_last() =~= groups.take(n));
        lemma_strata_error_persists(groups, xs, ys, n + 1, e);
    }
}

} // verus!
