use vstd::prelude::*;

verus! {

/// A matrix of keys: one row per observation, one column per conditioning
/// variable. The number of columns is kept even when there are no rows.
pub struct KeyMatrix {
    pub rows: Vec<Vec<u64>>,
    pub ncols: usize,
}

impl KeyMatrix {
    /// The rows as sequences of keys.
    pub open spec fn keys(&self) -> Seq<Seq<u64>> {
        self.rows@.map_values(|r: Vec<u64>| r@)
    }
}

/// Some group among `groups` starts with a row whose key is `key`.
pub open spec fn has_group(keys: Seq<Seq<u64>>, groups: Seq<Seq<usize>>, key: Seq<u64>) -> bool {
    exists|k: int| 0 <= k < groups.len() && keys[groups[k][0] as int] == key
}

/// The groups of the first `n` rows: rows are taken in order; a row joins the
/// group of the rows equal to it, or starts a new group at the end.
pub open spec fn partition_prefix(keys: Seq<Seq<u64>>, n: nat) -> Seq<Seq<usize>>
    decreases n,
{
    if n == 0 {
        Seq::empty()
    } else {
        let i = (n - 1) as nat;
        let g = partition_prefix(keys, i);
        if has_group(keys, g, keys[i as int]) {
            let k = choose|k: int| 0 <= k < g.len() && keys[g[k][0] as int] == keys[i as int];
            g.update(k, g[k].push(i as usize))
        } else {
            g.push(seq![i as usize])
        }
    }
}

/// The groups of all rows, in order of their first row.
pub open spec fn row_partition(keys: Seq<Seq<u64>>) -> Seq<Seq<usize>> {
    partition_prefix(keys, keys.len())
}

/// `groups` splits the indices `0..n` of `keys` into groups of equal rows:
/// every group is nonempty and increasing, every index lies in exactly one
/// group, two rows share a group exactly when they are equal, and the groups
/// come in order of their first index.
pub open spec fn is_row_partition(keys: Seq<Seq<u64>>, n: nat, groups: Seq<Seq<usize>>) -> bool {
    &&& forall|k: int| 0 <= k < groups.len() ==> #[trigger] groups[k].len() > 0
    &&& forall|k: int, m: int|
        0 <= k < groups.len() && 0 <= m < groups[k].len() ==> #[trigger] groups[k][m] < n
    &&& forall|k: int, m1: int, m2: int|
        0 <= k < groups.len() && 0 <= m1 < m2 < groups[k].len() ==> #[trigger] groups[k][m1]
            < #[trigger] groups[k][m2]
    &&& forall|k: int, m: int|
        0 <= k < groups.len() && 0 <= m < groups[k].len() ==> keys[#[trigger] groups[k][m] as int]
            == keys[groups[k][0] as int]
    &&& forall|k1: int, k2: int|
        0 <= k1 < k2 < groups.len() ==> keys[#[trigger] groups[k1][0] as int] != keys[
            #[trigger] groups[k2][0] as int]
    &&& forall|k1: int, k2: int|
        0 <= k1 < k2 < groups.len() ==> #[trigger] groups[k1][0] < #[trigger] groups[k2][0]
    &&& forall|i: int| 0 <= i < n ==> #[trigger] in_some_group(groups, i)
}

/// Index `i` lies in one of the groups.
pub open spec fn in_some_group(groups: Seq<Seq<usize>>, i: int) -> bool {
    exists|k: int, m: int| 0 <= k < groups.len() && 0 <= m < groups[k].len() && groups[k][m] == i
}

/// The groups built row by row have the shape described by `is_row_partition`.
pub proof fn lemma_partition_prefix(keys: Seq<Seq<u64>>, n: nat)
    requires
        n <= keys.len(),
        keys.len() <= usize::MAX,
    ensures
        is_row_partition(keys, n, partition_prefix(keys, n)),
    decreases n,
{
    if n > 0 {
        let i = (n - 1) as nat;
        let g = partition_prefix(keys, i);
        lemma_partition_prefix(keys, i);
        let h = partition_prefix(keys, n);
        if has_group(keys, g, keys[i as int]) {
            let k = choose|k: int| 0 <= k < g.len() && keys[g[k][0] as int] == keys[i as int];
            assert(h == g.update(k, g[k].push(i as usize)));
            assert forall|a: int, m: int|
                0 <= a < h.len() && 0 <= m < h[a].len() implies #[trigger] h[a][m] < n by {
                if a == k && m == g[k].len() {
                } else {
                    assert(h[a][m] == g[a][m]);
                }
            }
            assert forall|a: int, m1: int, m2: int|
                0 <= a < h.len() && 0 <= m1 < m2 < h[a].len() implies #[trigger] h[a][m1]
                < #[trigger] h[a][m2] by {
                if a == k {
                    assert(h[a] == g[k].push(i as usize));
                    assert(h[a][m1] == g[a][m1]);
                    if m2 == g[k].len() {
                        assert(g[a][m1] < i);
                    } else {
                        assert(h[a][m2] == g[a][m2]);
                    }
                } else {
                    assert(h[a] == g[a]);
                }
            }
            assert forall|a: int, m: int|
                0 <= a < h.len() && 0 <= m < h[a].len() implies keys[#[trigger] h[a][m] as int]
                == keys[h[a][0] as int] by {
                if a == k {
                    assert(h[a] == g[k].push(i as usize));
                    assert(h[a][0] == g[a][0]);
                    if m < g[k].len() {
                        assert(h[a][m] == g[a][m]);
                    }
                } else {
                    assert(h[a] == g[a]);
                }
            }
            assert forall|a: int, b: int| 0 <= a < b < h.len() implies keys[
                #[trigger] h[a][0] as int] != keys[#[trigger] h[b][0] as int] by {
                assert(h[a][0] == g[a][0]);
                assert(h[b][0] == g[b][0]);
            }
            assert forall|a: int, b: int| 0 <= a < b < h.len() implies #[trigger] h[a][0]
                < #[trigger] h[b][0] by {
                assert(h[a][0] == g[a][0]);
                assert(h[b][0] == g[b][0]);
            }
            assert forall|j: int| 0 <= j < n implies #[trigger] in_some_group(h, j) by {
                if j == i {
                    assert(h[k][g[k].len() as int] == j);
                } else {
                    assert(in_some_group(g, j));
                    let (a, m) = choose|a: int, m: int|
                        0 <= a < g.len() && 0 <= m < g[a].len() && g[a][m] == j;
                    assert(h[a][m] == j);
                }
            }
        } else {
            assert(h == g.push(seq![i as usize]));
            assert forall|a: int, b: int| 0 <= a < b < h.len() implies keys[
                #[trigger] h[a][0] as int] != keys[#[trigger] h[b][0] as int] by {
                if b == g.len() {
                    assert(!(0 <= a < g.len() && keys[g[a][0] as int] == keys[i as int]));
                }
            }
            assert forall|a: int, b: int| 0 <= a < b < h.len() implies #[trigger] h[a][0]
                < #[trigger] h[b][0] by {
            }
            assert forall|j: int| 0 <= j < n implies #[trigger] in_some_group(h, j) by {
                if j == i {
                    assert(h[g.len() as int][0] == j);
                } else {
                    assert(in_some_group(g, j));
                    let (a, m) = choose|a: int, m: int|
                        0 <= a < g.len() && 0 <= m < g[a].len() && g[a][m] == j;
                    assert(h[a][m] == j);
                }
            }
        }
    }
}

/// `a` and `b` hold the same keys.
fn rows_equal(a: &Vec<u64>, b: &Vec<u64>) -> (eq: bool)
    ensures
        eq == (a@ == b@),
{
    if a.len() != b.len() {
        return false;
    }
    let mut j: usize = 0;
    while j < a.len()
        invariant
            a@.len() == b@.len(),
            j <= a@.len(),
            forall|m: int| 0 <= m < j ==> a@[m] == b@[m],
        decreases a@.len() - j,
    {
        if a[j] != b[j] {
            return false;
        }
        j += 1;
    }
    assert(a@ =~= b@);
    true
}

/// Group the rows of `data` by their value: one list of row indices per
/// distinct row, holding the rows that share that combination of values.
/// Groups come in order of their first row; within a group the indices increase.
pub fn partition_by(data: &KeyMatrix) -> (groups: Vec<Vec<usize>>)
    ensures
        groups@.map_values(|g: Vec<usize>| g@) == row_partition(data.keys()),
        is_row_partition(data.keys(), data.rows@.len() as nat, row_partition(data.keys())),
{
    let ghost keys = data.keys();
    let mut groups: Vec<Vec<usize>> = Vec::new();
    let mut i: usize = 0;
    while i < data.rows.len()
        invariant
            keys == data.keys(),
            i <= keys.len(),
            groups@.map_values(|g: Vec<usize>| g@) == partition_prefix(keys, i as nat),
        decreases keys.len() - i,
    {
        let ghost g = partition_prefix(keys, i as nat);
        proof {
            lemma_partition_prefix(keys, i as nat);
        }
        assert(groups@.len() == g.len());
        assert(forall|k: int| 0 <= k < g.len() ==> #[trigger] groups@[k]@ == g[k]);
        let mut k: usize = 0;
        let mut found = false;
        while k < groups.len() && !found
            invariant
                keys == data.keys(),
                i < keys.len(),
                groups@.len() == g.len(),
                forall|a: int| 0 <= a < g.len() ==> #[trigger] groups@[a]@ == g[a],
                is_row_partition(keys, i as nat, g),
                k <= groups@.len(),
                found ==> k < g.len() && keys[g[k as int][0] as int] == keys[i as int],
                !found ==> forall|a: int| 0 <= a < k ==> keys[g[a][0] as int] != keys[i as int],
            decreases groups@.len() - k - (if found { 1int } else { 0int }),
        {
            let first = groups[k][0];
            assert(first == g[k as int][0]);
            if rows_equal(&data.rows[first], &data.rows[i]) {
                found = true;
            } else {
                k += 1;
            }
        }
        if found {
            proof {
                assert(has_group(keys, g, keys[i as int]));
                let c = choose|c: int| 0 <= c < g.len() && keys[g[c][0] as int] == keys[i as int];
                if c != k {
                    if c < k {
                        assert(keys[g[c][0] as int] != keys[g[k as int][0] as int]);
                    } else {
                        assert(keys[g[k as int][0] as int] != keys[g[c][0] as int]);
                    }
                }
            }
            groups[k].push(i);
            proof {
                let h = partition_prefix(keys, (i + 1) as nat);
                assert(groups@.map_values(|v: Vec<usize>| v@) =~= h);
            }
        } else {
            proof {
                assert(!has_group(keys, g, keys[i as int]));
            }
            let mut fresh: Vec<usize> = Vec::new();
            fresh.push(i);
            groups.push(fresh);
            proof {
                let h = partition_prefix(keys, (i + 1) as nat);
                assert(fresh@ =~= seq![i]);
                assert(groups@.map_values(|v: Vec<usize>| v@) =~= h);
            }
        }
        i += 1;
    }
    proof {
        lemma_partition_prefix(keys, keys.len());
    }
    groups
}

} // verus!
