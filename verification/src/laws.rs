use crate::category::{
    category_map, category_rank, lemma_category_map_len, lemma_category_rank_bounds,
    lemma_category_rank_monotone,
};
use crate::check::{degrees_of_freedom, table_check, ContingencyError};
use crate::table::{column_total, lemma_row_total_le_table_total, row_total, table_total};
use crate::strata::{strata_outcome, stratify_outcome, stratum_table};
use crate::table::{count_table, pair_count_upto, pair_hits};
use vstd::prelude::*;
use vstd::set_lib::set_int_range;

verus! {

/// Every number below the count of distinct values of `s` is the category of
/// some value of `s`: the numbering leaves no gaps.
pub proof fn lemma_category_map_onto(s: Seq<u64>, r: int)
    requires
        0 <= r < s.to_set().len(),
    ensures
        exists|v: u64| s.contains(v) && category_rank(s, v) == r,
{
    let d = s.to_set();
    let f = |v: u64| category_rank(s, v) as int;
    let k = d.len() as int;
    vstd::seq_lib::seq_to_set_is_finite(s);
    assert(vstd::relations::injective_on(f, d)) by {
        assert forall|a: u64, b: u64| d.contains(a) && d.contains(b) && #[trigger] f(a) == #[trigger] f(b)
            implies a == b by {
            if a < b {
                lemma_category_rank_monotone(s, a, b);
            } else if b < a {
                lemma_category_rank_monotone(s, b, a);
            }
        }
    }
    let image = d.map(f);
    vstd::set_lib::lemma_map_size(d, image, f);
    vstd::set_lib::lemma_int_range(0, k);
    assert(image.subset_of(set_int_range(0, k))) by {
        assert forall|x: int| image.contains(x) implies set_int_range(0, k).contains(x) by {
            let v = choose|v: u64| d.contains(v) && f(v) == x;
            lemma_category_rank_bounds(s, v);
        }
    }
    vstd::set_lib::lemma_subset_equality(image, set_int_range(0, k));
    assert(image.contains(r));
    let v = choose|v: u64| d.contains(v) && f(v) == r;
    assert(s.contains(v) && category_rank(s, v) == r);
}

/// The observations `(xs[i], ys[i])`, `i < xs.len()`, as pairs.
pub open spec fn observations(xs: Seq<u64>, ys: Seq<u64>) -> Seq<(u64, u64)> {
    Seq::new(xs.len(), |i: int| (xs[i], ys[i]))
}

/// How many of the pairs fall in cell `(r, c)` under the maps.
spec fn cell_count(
    obs: Seq<(u64, u64)>,
    map1: Map<u64, usize>,
    map2: Map<u64, usize>,
    r: int,
    c: int,
) -> nat
    decreases obs.len(),
{
    if obs.len() == 0 {
        0
    } else {
        cell_count(obs.drop_last(), map1, map2, r, c) + if pair_hits(
            obs.last().0,
            obs.last().1,
            map1,
            map2,
            r,
            c,
        ) {
            1nat
        } else {
            0nat
        }
    }
}

proof fn lemma_pair_count_is_cell_count(
    xs: Seq<u64>,
    ys: Seq<u64>,
    map1: Map<u64, usize>,
    map2: Map<u64, usize>,
    n: nat,
    r: int,
    c: int,
)
    requires
        n <= xs.len(),
    ensures
        pair_count_upto(xs, ys, map1, map2, n, r, c) == cell_count(
            observations(xs, ys).take(n as int),
            map1,
            map2,
            r,
            c,
        ),
    decreases n,
{
    if n > 0 {
        lemma_pair_count_is_cell_count(xs, ys, map1, map2, (n - 1) as nat, r, c);
        let o = observations(xs, ys);
        assert(o.take(n as int).drop_last() =~= o.take(n - 1));
    }
}

proof fn lemma_cell_count_remove(
    t: Seq<(u64, u64)>,
    j: int,
    map1: Map<u64, usize>,
    map2: Map<u64, usize>,
    r: int,
    c: int,
)
    requires
        0 <= j < t.len(),
    ensures
        cell_count(t, map1, map2, r, c) == cell_count(t.remove(j), map1, map2, r, c) + if pair_hits(
            t[j].0,
            t[j].1,
            map1,
            map2,
            r,
            c,
        ) {
            1nat
        } else {
            0nat
        },
    decreases t.len(),
{
    if j == t.len() - 1 {
        assert(t.remove(j) =~= t.drop_last());
    } else {
        assert(t.remove(j).drop_last() =~= t.drop_last().remove(j));
        assert(t.remove(j).last() == t.last());
        lemma_cell_count_remove(t.drop_last(), j, map1, map2, r, c);
    }
}

proof fn lemma_cell_count_multiset(
    s: Seq<(u64, u64)>,
    t: Seq<(u64, u64)>,
    map1: Map<u64, usize>,
    map2: Map<u64, usize>,
    r: int,
    c: int,
)
    requires
        s.to_multiset() == t.to_multiset(),
    ensures
        cell_count(s, map1, map2, r, c) == cell_count(t, map1, map2, r, c),
    decreases s.len(),
{
    broadcast use vstd::seq_lib::group_to_multiset_ensures;
    broadcast use vstd::multiset::group_multiset_axioms;

    if s.len() == 0 {
        assert(t.to_multiset().len() == 0);
        assert(t.len() == 0);
    } else {
        let e = s.last();
        let s1 = s.drop_last();
        assert(s1.push(e) =~= s);
        assert(s.to_multiset() =~= s1.to_multiset().insert(e));
        vstd::seq_lib::to_multiset_contains(s, e);
        vstd::seq_lib::to_multiset_contains(t, e);
        assert(s.contains(e)) by {
            assert(s[s.len() - 1] == e);
        }
        assert(t.contains(e));
        let j = choose|j: int| 0 <= j < t.len() && t[j] == e;
        let t1 = t.remove(j);
        assert(t1.to_multiset() =~= t.to_multiset().remove(e));
        assert(t1.to_multiset() =~= s1.to_multiset());
        lemma_cell_count_multiset(s1, t1, map1, map2, r, c);
        lemma_cell_count_remove(t, j, map1, map2, r, c);
    }
}

/// Observations with the same multiset of pairs have the same values on each side.
proof fn lemma_same_values(x1: Seq<u64>, y1: Seq<u64>, x2: Seq<u64>, y2: Seq<u64>)
    requires
        x1.len() == y1.len(),
        x2.len() == y2.len(),
        observations(x1, y1).to_multiset() == observations(x2, y2).to_multiset(),
    ensures
        x1.to_set() == x2.to_set(),
        y1.to_set() == y2.to_set(),
{
    let o1 = observations(x1, y1);
    let o2 = observations(x2, y2);
    assert forall|v: u64| x1.contains(v) <==> x2.contains(v) by {
        if x1.contains(v) {
            let i = choose|i: int| 0 <= i < x1.len() && x1[i] == v;
            lemma_pair_moves(o1, o2, i);
        }
        if x2.contains(v) {
            let i = choose|i: int| 0 <= i < x2.len() && x2[i] == v;
            lemma_pair_moves(o2, o1, i);
        }
    }
    assert forall|v: u64| y1.contains(v) <==> y2.contains(v) by {
        if y1.contains(v) {
            let i = choose|i: int| 0 <= i < y1.len() && y1[i] == v;
            lemma_pair_moves(o1, o2, i);
        }
        if y2.contains(v) {
            let i = choose|i: int| 0 <= i < y2.len() && y2[i] == v;
            lemma_pair_moves(o2, o1, i);
        }
    }
    assert(x1.to_set() =~= x2.to_set());
    assert(y1.to_set() =~= y2.to_set());
}

/// A pair of one sequence occurs in any sequence with the same multiset.
proof fn lemma_pair_moves(a: Seq<(u64, u64)>, b: Seq<(u64, u64)>, i: int)
    requires
        a.to_multiset() == b.to_multiset(),
        0 <= i < a.len(),
    ensures
        exists|k: int| 0 <= k < b.len() && b[k] == a[i],
{
    vstd::seq_lib::to_multiset_contains(a, a[i]);
    vstd::seq_lib::to_multiset_contains(b, a[i]);
    assert(a.contains(a[i]));
}

/// The contingency table does not depend on the order of the observations:
/// two lists of observations with the same pairs, each as often, give the same table.
pub proof fn lemma_contingency_table_order_independent(
    x1: Seq<u64>,
    y1: Seq<u64>,
    x2: Seq<u64>,
    y2: Seq<u64>,
)
    requires
        x1.len() == y1.len(),
        x2.len() == y2.len(),
        observations(x1, y1).to_multiset() == observations(x2, y2).to_multiset(),
    ensures
        count_table(x1, y1, category_map(x1), category_map(y1)) == count_table(
            x2,
            y2,
            category_map(x2),
            category_map(y2),
        ),
{
    lemma_same_values(x1, y1, x2, y2);
    let m1 = category_map(x1);
    let m2 = category_map(y1);
    assert(m1 =~= category_map(x2));
    assert(m2 =~= category_map(y2));
    let t1 = count_table(x1, y1, m1, m2);
    let t2 = count_table(x2, y2, m1, m2);
    assert forall|r: int| 0 <= r < t1.len() implies #[trigger] t1[r] == t2[r] by {
        assert forall|c: int| 0 <= c < t1[r].len() implies t1[r][c] == t2[r][c] by {
            lemma_pair_count_is_cell_count(x1, y1, m1, m2, x1.len(), r, c);
            lemma_pair_count_is_cell_count(x2, y2, m1, m2, x2.len(), r, c);
            assert(observations(x1, y1).take(x1.len() as int) =~= observations(x1, y1));
            assert(observations(x2, y2).take(x2.len() as int) =~= observations(x2, y2));
            lemma_cell_count_multiset(observations(x1, y1), observations(x2, y2), m1, m2, r, c);
        }
        assert(t1[r] =~= t2[r]);
    }
    assert(t1 =~= t2);
}

/// `perm` lists each of the indices `0..n` once.
pub open spec fn is_index_permutation(perm: Seq<int>, n: nat) -> bool {
    &&& perm.len() == n
    &&& forall|k: int| 0 <= k < n ==> 0 <= #[trigger] perm[k] < n
    &&& forall|a: int, b: int| 0 <= a < b < n ==> #[trigger] perm[a] != #[trigger] perm[b]
}

/// The values of `s` rearranged by `perm`: position `k` holds `s[perm[k]]`.
pub open spec fn permute<A>(s: Seq<A>, perm: Seq<int>) -> Seq<A> {
    Seq::new(perm.len(), |k: int| s[perm[k]])
}

proof fn lemma_permute_multiset(s: Seq<(u64, u64)>, perm: Seq<int>)
    requires
        is_index_permutation(perm, s.len()),
    ensures
        permute(s, perm).to_multiset() == s.to_multiset(),
    decreases s.len(),
{
    broadcast use vstd::seq_lib::group_to_multiset_ensures;
    broadcast use vstd::multiset::group_multiset_axioms;

    let t = permute(s, perm);
    let n = s.len();
    if n == 0 {
        assert(t =~= s);
    } else {
        let p = perm[n - 1];
        let s1 = s.remove(p);
        let perm1 = Seq::new((n - 1) as nat, |k: int| if perm[k] < p { perm[k] } else { perm[k] - 1 });
        assert forall|k: int| 0 <= k < n - 1 implies 0 <= #[trigger] perm1[k] < n - 1 by {
            assert(perm[k] != perm[n - 1]);
        }
        assert forall|a: int, b: int| 0 <= a < b < n - 1 implies #[trigger] perm1[a] != #[trigger] perm1[b] by {
            assert(perm[a] != perm[n - 1]);
            assert(perm[b] != perm[n - 1]);
            assert(perm[a] != perm[b]);
        }
        lemma_permute_multiset(s1, perm1);
        assert(permute(s1, perm1) =~= t.drop_last()) by {
            assert forall|k: int| 0 <= k < n - 1 implies permute(s1, perm1)[k] == t.drop_last()[k] by {
                assert(perm[k] != perm[n - 1]);
            }
        }
        assert(t.drop_last().push(t.last()) =~= t);
        assert(t.last() == s[p]);
        assert(s1.to_multiset() =~= s.to_multiset().remove(s[p]));
        vstd::seq_lib::to_multiset_contains(s, s[p]);
        assert(s.contains(s[p]));
        assert(t.to_multiset() =~= s.to_multiset().remove(s[p]).insert(s[p]));
        assert(s.to_multiset().remove(s[p]).insert(s[p]) =~= s.to_multiset());
    }
}

/// Rearranging the observations, both columns alike, leaves the contingency
/// table unchanged.
pub proof fn lemma_contingency_table_permutation(x: Seq<u64>, y: Seq<u64>, perm: Seq<int>)
    requires
        x.len() == y.len(),
        is_index_permutation(perm, x.len()),
    ensures
        count_table(
            permute(x, perm),
            permute(y, perm),
            category_map(permute(x, perm)),
            category_map(permute(y, perm)),
        ) == count_table(x, y, category_map(x), category_map(y)),
{
    let x2 = permute(x, perm);
    let y2 = permute(y, perm);
    assert(observations(x2, y2) =~= permute(observations(x, y), perm));
    lemma_permute_multiset(observations(x, y), perm);
    lemma_contingency_table_order_independent(x2, y2, x, y);
}

/// A table shaped like the category maps of `xs` and `ys`.
pub open spec fn has_category_shape(t: Seq<Seq<usize>>, xs: Seq<u64>, ys: Seq<u64>) -> bool {
    &&& t.len() == xs.to_set().len()
    &&& forall|r: int| 0 <= r < t.len() ==> (#[trigger] t[r]).len() == ys.to_set().len()
}

proof fn lemma_count_table_shape(gx: Seq<u64>, gy: Seq<u64>, xs: Seq<u64>, ys: Seq<u64>)
    ensures
        has_category_shape(count_table(gx, gy, category_map(xs), category_map(ys)), xs, ys),
{
    lemma_category_map_len(xs);
    lemma_category_map_len(ys);
}

proof fn lemma_accepted_dof(t: Seq<Seq<usize>>, xs: Seq<u64>, ys: Seq<u64>)
    requires
        has_category_shape(t, xs, ys),
        xs.to_set().len() * ys.to_set().len() <= usize::MAX,
    ensures
        table_check(t, ys.to_set().len()) matches Ok(k) ==> k == degrees_of_freedom(
            xs.to_set().len(),
            ys.to_set().len(),
        ),
{
    let a = xs.to_set().len();
    let b = ys.to_set().len();
    if a >= 2 && b >= 2 {
        assert((a - 1) * (b - 1) <= a * b) by (nonlinear_arith)
            requires
                a >= 2,
                b >= 2,
        ;
    }
}

proof fn lemma_strata_shape(groups: Seq<Seq<usize>>, xs: Seq<u64>, ys: Seq<u64>)
    requires
        xs.to_set().len() * ys.to_set().len() <= usize::MAX,
    ensures
        strata_outcome(groups, xs, ys) matches Ok(v) ==> {
            &&& v.1 == v.0.len() * degrees_of_freedom(xs.to_set().len(), ys.to_set().len())
            &&& forall|k: int| 0 <= k < v.0.len() ==> has_category_shape(#[trigger] v.0[k], xs, ys)
        },
    decreases groups.len(),
{
    if groups.len() > 0 {
        lemma_strata_shape(groups.drop_last(), xs, ys);
        let t = stratum_table(xs, ys, groups.last());
        lemma_count_table_shape(
            crate::strata::gather(xs, groups.last()),
            crate::strata::gather(ys, groups.last()),
            xs,
            ys,
        );
        lemma_category_map_len(ys);
        lemma_accepted_dof(t, xs, ys);
        let d = degrees_of_freedom(xs.to_set().len(), ys.to_set().len());
        if let Ok(v) = strata_outcome(groups.drop_last(), xs, ys) {
            if let Ok(k) = table_check(t, ys.to_set().len()) {
                if k != 0 {
                    assert(v.0.push(t).len() * d == v.0.len() * d + d) by (nonlinear_arith)
                        requires
                            v.0.push(t).len() == v.0.len() + 1,
                    ;
                    assert forall|j: int| 0 <= j < v.0.push(t).len() implies has_category_shape(
                        #[trigger] v.0.push(t)[j],
                        xs,
                        ys,
                    ) by {
                        if j < v.0.len() {
                            assert(v.0.push(t)[j] == v.0[j]);
                        }
                    }
                }
            }
        }
    }
}

/// Every table behind a power-divergence test has one row per distinct value
/// of `xs` and one column per distinct value of `ys`, in every stratum, and
/// the degrees of freedom are the number of tables times
/// `(rows - 1) * (columns - 1)`.
pub proof fn lemma_stratify_shape(z: Seq<Seq<u64>>, zcols: nat, xs: Seq<u64>, ys: Seq<u64>)
    requires
        xs.to_set().len() * ys.to_set().len() <= usize::MAX,
    ensures
        stratify_outcome(z, zcols, xs, ys) matches Ok(v) ==> {
            &&& v.1 == v.0.len() * degrees_of_freedom(xs.to_set().len(), ys.to_set().len())
            &&& forall|k: int| 0 <= k < v.0.len() ==> has_category_shape(#[trigger] v.0[k], xs, ys)
        },
{
    if zcols == 0 {
        let t = count_table(xs, ys, category_map(xs), category_map(ys));
        lemma_count_table_shape(xs, ys, xs, ys);
        lemma_category_map_len(ys);
        lemma_accepted_dof(t, xs, ys);
        if let Ok(v) = stratify_outcome(z, zcols, xs, ys) {
            assert(v.0 == seq![t]);
            assert(v.0[0] == t);
        }
    } else {
        lemma_strata_shape(crate::partition::row_partition(z), xs, ys);
    }
}

/// The indices `0..n`.
pub open spec fn index_range(n: nat) -> Seq<usize> {
    Seq::new(n, |i: int| i as usize)
}

proof fn lemma_constant_rows_one_group(keys: Seq<Seq<u64>>, k: nat)
    requires
        1 <= k <= keys.len() <= usize::MAX,
        forall|i: int| 0 <= i < keys.len() ==> #[trigger] keys[i] == keys[0],
    ensures
        crate::partition::partition_prefix(keys, k) == seq![index_range(k)],
    decreases k,
{
    let g = crate::partition::partition_prefix(keys, (k - 1) as nat);
    if k == 1 {
        assert(seq![0usize] =~= index_range(1));
    } else {
        lemma_constant_rows_one_group(keys, (k - 1) as nat);
        assert(g[0][0] == 0);
        assert(crate::partition::has_group(keys, g, keys[k - 1]));
        assert(index_range((k - 1) as nat).push((k - 1) as usize) =~= index_range(k));
        assert(g.update(0, g[0].push((k - 1) as usize)) =~= seq![index_range(k)]);
    }
}

/// Conditioning on a set whose rows are all equal changes nothing: the test
/// has the same outcome as without conditioning, except that a table with
/// zero degrees of freedom is left out.
pub proof fn lemma_constant_conditioning(z: Seq<Seq<u64>>, zcols: nat, xs: Seq<u64>, ys: Seq<u64>)
    requires
        zcols > 0,
        0 < z.len() <= usize::MAX,
        z.len() == xs.len(),
        z.len() == ys.len(),
        forall|i: int| 0 <= i < z.len() ==> #[trigger] z[i] == z[0],
    ensures
        stratify_outcome(z, zcols, xs, ys) is Ok <==> stratify_outcome(z, 0, xs, ys) is Ok,
        stratify_outcome(z, 0, xs, ys) matches Err(e) ==> stratify_outcome(z, zcols, xs, ys)
            == Err::<crate::strata::StrataView, crate::check::ContingencyError>(e),
        stratify_outcome(z, 0, xs, ys) matches Ok(v) ==> stratify_outcome(z, zcols, xs, ys) == if v.1
            == 0 {
            Ok::<crate::strata::StrataView, crate::check::ContingencyError>((Seq::empty(), 0nat))
        } else {
            Ok::<crate::strata::StrataView, crate::check::ContingencyError>(v)
        },
{
    lemma_constant_rows_one_group(z, z.len());
    let groups = crate::partition::row_partition(z);
    assert(groups == seq![index_range(z.len())]);
    assert(crate::strata::gather(xs, index_range(z.len())) =~= xs);
    assert(crate::strata::gather(ys, index_range(z.len())) =~= ys);
    assert(groups.drop_last() =~= Seq::<Seq<usize>>::empty());
    assert(groups.last() == index_range(z.len()));
    assert(strata_outcome(groups.drop_last(), xs, ys) == Ok::<
        crate::strata::StrataView,
        crate::check::ContingencyError,
    >((Seq::empty(), 0nat)));
    assert(Seq::<Seq<Seq<usize>>>::empty().push(stratum_table(xs, ys, groups.last())) =~= seq![
        count_table(xs, ys, category_map(xs), category_map(ys)),
    ]);
}

/// A table passes the check exactly when it has cells and every row and every
/// column holds at least one observation; it then has `(rows - 1) * (cols - 1)`
/// degrees of freedom (0 below two rows or columns). A rejection for a zero
/// expected frequency names a cell whose row or column is empty, and every
/// cell before it, row by row, has a nonempty row and column: the rows above
/// it are nonempty, the columns to its left are nonempty, and below the first
/// row every column is nonempty.
pub proof fn lemma_table_check_meaning(t: Seq<Seq<usize>>, ncols: nat)
    requires
        t.len() * ncols <= usize::MAX,
        t.len() <= usize::MAX,
        ncols <= usize::MAX,
    ensures
        table_check(t, ncols) is Ok <==> {
            &&& t.len() > 0
            &&& ncols > 0
            &&& forall|i: int| 0 <= i < t.len() ==> row_total(#[trigger] t[i]) > 0
            &&& forall|j: int| 0 <= j < ncols ==> #[trigger] column_total(t, j) > 0
        },
        table_check(t, ncols) matches Ok(d) ==> d == degrees_of_freedom(t.len(), ncols),
        table_check(t, ncols) == Err::<usize, ContingencyError>(ContingencyError::NoData) <==> (
        t.len() == 0 || ncols == 0),
        table_check(t, ncols) == Err::<usize, ContingencyError>(ContingencyError::ZeroTotal) ==> t.len()
            > 0 && ncols > 0 && table_total(t) == 0,
        table_check(t, ncols) matches Err(ContingencyError::ZeroExpected { row, col }) ==> {
            &&& row < t.len()
            &&& col < ncols
            &&& row_total(t[row as int]) == 0 || column_total(t, col as int) == 0
            &&& forall|a: int| 0 <= a < row ==> row_total(#[trigger] t[a]) > 0
            &&& forall|b: int| 0 <= b < col ==> #[trigger] column_total(t, b) > 0
            &&& row > 0 ==> forall|b: int| 0 <= b < ncols ==> #[trigger] column_total(t, b) > 0
        },
{
    if t.len() > 0 && ncols > 0 {
        if forall|i: int| 0 <= i < t.len() ==> row_total(#[trigger] t[i]) > 0 {
            lemma_row_total_le_table_total(t, 0);
        }
        if !crate::check::has_zero_expected(t, ncols) {
            assert forall|i: int| 0 <= i < t.len() implies row_total(#[trigger] t[i]) > 0 by {
                assert(!crate::check::expected_is_zero(t, i, 0));
            }
            assert forall|j: int| 0 <= j < ncols implies #[trigger] column_total(t, j) > 0 by {
                assert(!crate::check::expected_is_zero(t, 0, j));
            }
        }
        if t.len() >= 2 && ncols >= 2 {
            assert((t.len() - 1) * (ncols - 1) <= t.len() * ncols) by (nonlinear_arith)
                requires
                    t.len() >= 2,
                    ncols >= 2,
            ;
        }
        if let Err(ContingencyError::ZeroExpected { row, col }) = table_check(t, ncols) {
            lemma_zero_expected_meaning(t, ncols, row, col);
        }
    }
}

proof fn lemma_zero_expected_meaning(t: Seq<Seq<usize>>, ncols: nat, row: usize, col: usize)
    requires
        t.len() <= usize::MAX,
        ncols <= usize::MAX,
        table_check(t, ncols) == Err::<usize, ContingencyError>(
            ContingencyError::ZeroExpected { row, col },
        ),
    ensures
        row < t.len(),
        col < ncols,
        row_total(t[row as int]) == 0 || column_total(t, col as int) == 0,
        forall|a: int| 0 <= a < row ==> row_total(#[trigger] t[a]) > 0,
        forall|b: int| 0 <= b < col ==> #[trigger] column_total(t, b) > 0,
        row > 0 ==> forall|b: int| 0 <= b < ncols ==> #[trigger] column_total(t, b) > 0,
{
    let (i0, j0) = choose|i: int, j: int|
        0 <= i < t.len() && 0 <= j < ncols && crate::check::expected_is_zero(t, i, j);
    lemma_first_zero_exists(t, ncols, i0, j0);
    let (i, j) = choose|i: int, j: int| crate::check::is_first_zero_expected(t, ncols, i, j);
    assert(crate::check::is_first_zero_expected(t, ncols, i, j));
    assert(row as int == i && col as int == j);
    assert forall|a: int| 0 <= a < row implies row_total(#[trigger] t[a]) > 0 by {
        assert(!crate::check::expected_is_zero(t, a, 0));
    }
    assert forall|b: int| 0 <= b < col implies #[trigger] column_total(t, b) > 0 by {
        assert(!crate::check::expected_is_zero(t, i, b));
    }
    if row > 0 {
        assert forall|b: int| 0 <= b < ncols implies #[trigger] column_total(t, b) > 0 by {
            assert(!crate::check::expected_is_zero(t, 0, b));
        }
    }
}

/// When some cell has a zero expected frequency, a first one exists.
proof fn lemma_first_zero_exists(t: Seq<Seq<usize>>, ncols: nat, i0: int, j0: int)
    requires
        0 <= i0 < t.len(),
        0 <= j0 < ncols,
        crate::check::expected_is_zero(t, i0, j0),
    ensures
        exists|i: int, j: int| crate::check::is_first_zero_expected(t, ncols, i, j),
    decreases i0 * ncols + j0,
{
    if !crate::check::is_first_zero_expected(t, ncols, i0, j0) {
        let (a, b) = choose|a: int, b: int|
            0 <= a < t.len() && 0 <= b < ncols && crate::check::cell_before(a, b, i0, j0)
                && crate::check::expected_is_zero(t, a, b);
        assert(a * ncols + b < i0 * ncols + j0) by (nonlinear_arith)
            requires
                0 <= b < ncols,
                0 <= j0 < ncols,
                a < i0 || (a == i0 && b < j0),
        ;
        assert(0 <= a * ncols + b) by (nonlinear_arith)
            requires
                0 <= a,
                0 <= b,
        ;
        lemma_first_zero_exists(t, ncols, a, b);
    }
}

proof fn lemma_strata_accept_all(groups: Seq<Seq<usize>>, xs: Seq<u64>, ys: Seq<u64>)
    ensures
        strata_outcome(groups, xs, ys) is Ok <==> forall|k: int|
            0 <= k < groups.len() ==> (table_check(
                stratum_table(xs, ys, #[trigger] groups[k]),
                category_map(ys).len(),
            ) is Ok),
        strata_outcome(groups, xs, ys) matches Err(e) ==> exists|k: int|
            0 <= k < groups.len() && table_check(
                stratum_table(xs, ys, #[trigger] groups[k]),
                category_map(ys).len(),
            ) == Err::<usize, ContingencyError>(e),
    decreases groups.len(),
{
    if groups.len() > 0 {
        let g1 = groups.drop_last();
        lemma_strata_accept_all(g1, xs, ys);
        assert forall|k: int| 0 <= k < g1.len() implies #[trigger] g1[k] == groups[k] by {}
        let last = groups.len() - 1;
        assert(groups[last] == groups.last());
        let ky = category_map(ys).len();
        if strata_outcome(g1, xs, ys) is Ok {
            if strata_outcome(groups, xs, ys) is Ok {
                assert forall|k: int| 0 <= k < groups.len() implies (table_check(
                    stratum_table(xs, ys, #[trigger] groups[k]),
                    ky,
                ) is Ok) by {
                    if k < last {
                        assert(groups[k] == g1[k]);
                    }
                }
            }
            if forall|k: int|
                0 <= k < groups.len() ==> (table_check(
                    stratum_table(xs, ys, #[trigger] groups[k]),
                    ky,
                ) is Ok) {
                assert(table_check(stratum_table(xs, ys, groups[last]), ky) is Ok);
            }
        } else if forall|k: int|
            0 <= k < groups.len() ==> (table_check(
                stratum_table(xs, ys, #[trigger] groups[k]),
                ky,
            ) is Ok) {
            assert forall|k: int| 0 <= k < g1.len() implies (table_check(
                stratum_table(xs, ys, #[trigger] g1[k]),
                ky,
            ) is Ok) by {
                assert(groups[k] == g1[k]);
            }
        }
        if !(strata_outcome(g1, xs, ys) is Ok) {
            let e = strata_outcome(g1, xs, ys)->Err_0;
            let k = choose|k: int|
                0 <= k < g1.len() && table_check(
                    stratum_table(xs, ys, #[trigger] g1[k]),
                    category_map(ys).len(),
                ) == Err::<usize, ContingencyError>(e);
            assert(groups[k] == g1[k]);
        }
    }
}

/// A power-divergence test succeeds only when the table of every stratum
/// passes the check: when one stratum's table is rejected, the whole test is
/// rejected, with the error of some rejected stratum. Without conditioning
/// columns it succeeds exactly when the one table of all observations passes.
pub proof fn lemma_stratify_needs_every_stratum(
    z: Seq<Seq<u64>>,
    zcols: nat,
    xs: Seq<u64>,
    ys: Seq<u64>,
)
    ensures
        zcols > 0 ==> (stratify_outcome(z, zcols, xs, ys) is Ok <==> forall|k: int|
            0 <= k < crate::partition::row_partition(z).len() ==> (table_check(
                stratum_table(xs, ys, #[trigger] crate::partition::row_partition(z)[k]),
                ys.to_set().len(),
            ) is Ok)),
        zcols > 0 ==> (stratify_outcome(z, zcols, xs, ys) matches Err(e) ==> exists|k: int|
            0 <= k < crate::partition::row_partition(z).len() && table_check(
                stratum_table(xs, ys, #[trigger] crate::partition::row_partition(z)[k]),
                ys.to_set().len(),
            ) == Err::<usize, ContingencyError>(e)),
        zcols == 0 ==> (stratify_outcome(z, zcols, xs, ys) is Ok <==> table_check(
            count_table(xs, ys, category_map(xs), category_map(ys)),
            ys.to_set().len(),
        ) is Ok),
{
    lemma_category_map_len(ys);
    lemma_strata_accept_all(crate::partition::row_partition(z), xs, ys);
}

} // verus!
