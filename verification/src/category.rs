use std::collections::HashMap;
use vstd::prelude::*;

verus! {

broadcast use vstd::std_specs::hash::group_hash_axioms;

/// How many distinct values of `s` are smaller than `v`.
pub open spec fn category_rank(s: Seq<u64>, v: u64) -> nat {
    s.to_set().filter(|w: u64| w < v).len()
}

/// Every distinct value of `s` numbered by its rank: the smallest gets 0,
/// the next gets 1, and so on.
pub open spec fn category_map(s: Seq<u64>) -> Map<u64, usize> {
    Map::new(|v: u64| s.contains(v), |v: u64| category_rank(s, v) as usize)
}

/// `s` is in nondecreasing order.
pub open spec fn is_sorted(s: Seq<u64>) -> bool {
    forall|i: int, j: int| 0 <= i <= j < s.len() ==> s[i] <= s[j]
}

/// Sorts the keys in place with `slice::sort`, which std documents as putting
/// the slice in ascending order; the result is a rearrangement of the input.
#[verifier::external_body]
fn sort_keys(v: &mut Vec<u64>)
    ensures
        is_sorted(final(v)@),
        final(v)@.to_multiset() == old(v)@.to_multiset(),
{
    v.sort();
}

/// Number every distinct value in `arr`: the smallest gets 0, the next gets 1,
/// and so on. Passing the same map to several table constructions gives tables
/// that share the same rows or columns.
pub fn build_global_category_map(arr: &Vec<u64>) -> (map: HashMap<u64, usize>)
    ensures
        map@ == category_map(arr@),
{
    broadcast use vstd::seq_lib::group_to_multiset_ensures;

    let mut sorted = arr.clone();
    sort_keys(&mut sorted);
    let mut map: HashMap<u64, usize> = HashMap::new();
    let mut i: usize = 0;
    while i < sorted.len()
        invariant
            is_sorted(sorted@),
            sorted@.to_multiset() == arr@.to_multiset(),
            0 <= i <= sorted@.len(),
            map@.dom() == sorted@.subrange(0, i as int).to_set(),
            forall|v: u64| #[trigger] map@.contains_key(v) ==> map@[v] == category_rank(arr@, v),
        decreases sorted@.len() - i,
    {
        let v = sorted[i];
        if !map.contains_key(&v) {
            let next = map.len();
            proof {
                lemma_rank_of_next(arr@, sorted@, i as int, map@.dom());
            }
            map.insert(v, next);
        }
        proof {
            assert(sorted@.subrange(0, i + 1) == sorted@.subrange(0, i as int).push(v));
            sorted@.subrange(0, i as int).lemma_push_to_set_commute(v);
        }
        i += 1;
    }
    proof {
        assert(sorted@.subrange(0, sorted@.len() as int) == sorted@);
        assert forall|v: u64| arr@.contains(v) <==> sorted@.contains(v) by {
            assert(arr@.to_multiset().count(v) == sorted@.to_multiset().count(v));
        }
        assert(map@ =~= category_map(arr@));
    }
    map
}

/// When the values of `sorted[0..i]` are the keys seen so far and `sorted[i]`
/// is new, those keys are exactly the distinct values of `arr` below
/// `sorted[i]`, so `sorted[i]` ranks after all of them.
proof fn lemma_rank_of_next(arr: Seq<u64>, sorted: Seq<u64>, i: int, seen: Set<u64>)
    requires
        is_sorted(sorted),
        sorted.to_multiset() == arr.to_multiset(),
        0 <= i < sorted.len(),
        seen == sorted.subrange(0, i).to_set(),
        !seen.contains(sorted[i]),
    ensures
        category_rank(arr, sorted[i]) == seen.len(),
{
    broadcast use vstd::seq_lib::group_to_multiset_ensures;

    let v = sorted[i];
    let below = arr.to_set().filter(|w: u64| w < v);
    assert forall|w: u64| below.contains(w) implies seen.contains(w) by {
        assert(arr.contains(w));
        vstd::seq_lib::to_multiset_contains(arr, w);
        vstd::seq_lib::to_multiset_contains(sorted, w);
        assert(sorted.contains(w));
        let p = choose|p: int| 0 <= p < sorted.len() && sorted[p] == w;
        if p >= i {
            assert(sorted[i] <= sorted[p]);
        }
        assert(sorted.subrange(0, i)[p] == w);
    }
    assert forall|w: u64| seen.contains(w) implies below.contains(w) by {
        let p = choose|p: int| 0 <= p < i && sorted.subrange(0, i)[p] == w;
        assert(sorted[p] == w);
        assert(sorted[p] <= sorted[i]);
        vstd::seq_lib::to_multiset_contains(arr, w);
        vstd::seq_lib::to_multiset_contains(sorted, w);
        assert(sorted.contains(w));
        assert(arr.contains(w));
    }
    assert(below =~= seen);
}

/// The rank of a value of `s` is below the number of distinct values of `s`,
/// which is at most the length of `s`.
pub proof fn lemma_category_rank_bounds(s: Seq<u64>, v: u64)
    requires
        s.contains(v),
    ensures
        category_rank(s, v) < s.to_set().len(),
        s.to_set().len() <= s.len(),
{
    let all = s.to_set();
    let below = all.filter(|w: u64| w < v);
    s.lemma_cardinality_of_set();
    vstd::seq_lib::seq_to_set_is_finite(s);
    assert(below.subset_of(all.remove(v)));
    vstd::set_lib::lemma_len_subset(below, all.remove(v));
}

/// The category map of `s` has one entry per distinct value of `s`.
pub proof fn lemma_category_map_len(s: Seq<u64>)
    ensures
        category_map(s).dom() == s.to_set(),
        category_map(s).len() == s.to_set().len(),
{
    assert(category_map(s).dom() =~= s.to_set());
}

/// Ranks follow the order of the values: a smaller value gets a smaller number.
pub proof fn lemma_category_rank_monotone(s: Seq<u64>, v: u64, w: u64)
    requires
        s.contains(v),
        s.contains(w),
        v < w,
    ensures
        category_rank(s, v) < category_rank(s, w),
{
    let all = s.to_set();
    let below_v = all.filter(|u: u64| u < v);
    let below_w = all.filter(|u: u64| u < w);
    vstd::seq_lib::seq_to_set_is_finite(s);
    assert(below_w.subset_of(all));
    vstd::set_lib::lemma_len_subset(below_w, all);
    assert(below_v.subset_of(below_w.remove(v)));
    vstd::set_lib::lemma_len_subset(below_v, below_w.remove(v));
}

} // verus!
