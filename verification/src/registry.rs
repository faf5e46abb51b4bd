use crate::ci_tests::{
    CITestDataType, ChiSquared, CressieRead, FreemanTukey, GTest, IndependenceMatch, LikelihoodRatio,
    LogLikelihood, ModifiedLikelihood, PearsonCorrelation,
};
use vstd::slice::slice_to_vec;
use vstd::prelude::*;

verus! {

/// What `str::to_lowercase` gives for a string: each character replaced by
/// its Unicode lowercase mapping.
pub uninterp spec fn lowercase(s: Seq<char>) -> Seq<char>;

/// Calls std `str::to_lowercase`, which std documents as returning the
/// lowercase equivalent of the string as a new `String`; the result is
/// `lowercase` of the argument, which depends on the argument alone.
#[verifier::external_body]
fn to_lowercase(s: &str) -> (r: String)
    ensures
        r@ == lowercase(s@),
{
    s.to_lowercase()
}

/// The indices `i < n` whose data types include `data_type`, in increasing order.
pub open spec fn indices_with(
    types: Seq<Seq<CITestDataType>>,
    data_type: CITestDataType,
    n: nat,
) -> Seq<usize>
    decreases n,
{
    if n == 0 {
        Seq::empty()
    } else {
        let i = (n - 1) as nat;
        let prefix = indices_with(types, data_type, i);
        if types[i as int].contains(data_type) {
            prefix.push(i as usize)
        } else {
            prefix
        }
    }
}

/// The listed indices are exactly the `i < n` whose data types include
/// `data_type`, each once, in increasing order.
pub proof fn lemma_indices_with(types: Seq<Seq<CITestDataType>>, data_type: CITestDataType, n: nat)
    requires
        n <= types.len(),
        n <= usize::MAX,
    ensures
        forall|i: int|
            0 <= i < n ==> (indices_with(types, data_type, n).contains(i as usize) <==> (
            #[trigger] types[i]).contains(data_type)),
        forall|k: int|
            0 <= k < indices_with(types, data_type, n).len() ==> #[trigger] indices_with(
                types,
                data_type,
                n,
            )[k] < n,
        forall|a: int, b: int|
            0 <= a < b < indices_with(types, data_type, n).len() ==> #[trigger] indices_with(
                types,
                data_type,
                n,
            )[a] < #[trigger] indices_with(types, data_type, n)[b],
    decreases n,
{
    if n > 0 {
        let m = (n - 1) as nat;
        lemma_indices_with(types, data_type, m);
        let p = indices_with(types, data_type, m);
        let v = indices_with(types, data_type, n);
        assert forall|i: int| 0 <= i < n implies (v.contains(i as usize) <==> (
        #[trigger] types[i]).contains(data_type)) by {
            if i < m {
                if v.contains(i as usize) {
                    let k = choose|k: int| 0 <= k < v.len() && v[k] == i as usize;
                    if k < p.len() {
                        assert(p[k] == v[k]);
                    }
                }
                if p.contains(i as usize) {
                    let k = choose|k: int| 0 <= k < p.len() && p[k] == i as usize;
                    assert(v[k] == p[k]);
                }
            } else {
                if types[i].contains(data_type) {
                    assert(v[v.len() - 1] == i as usize);
                } else {
                    assert(v == p);
                    if p.contains(i as usize) {
                        let k = choose|k: int| 0 <= k < p.len() && p[k] == i as usize;
                    }
                }
            }
        }
    }
}

/// The indices `0..n`.
pub open spec fn all_indices(n: nat) -> Seq<usize> {
    Seq::new(n, |i: int| i as usize)
}

/// The names of the built-in tests, in order of registration.
pub open spec fn all_test_names() -> Seq<Seq<char>> {
    seq![
        "chi_square"@,
        "cressie_read"@,
        "freeman_tukey"@,
        "g_test"@,
        "independence_match"@,
        "likelihood_ratio"@,
        "log_likelihood"@,
        "modified_likelihood"@,
        "pearson_correlation"@,
        "pearson_equivalence"@,
        "power_divergence"@,
    ]
}

/// The data types of the built-in tests, in order of registration.
pub open spec fn all_test_types() -> Seq<Seq<CITestDataType>> {
    seq![
        ChiSquared::accepted_types(),
        CressieRead::accepted_types(),
        FreemanTukey::accepted_types(),
        GTest::accepted_types(),
        IndependenceMatch::accepted_types(),
        LikelihoodRatio::accepted_types(),
        LogLikelihood::accepted_types(),
        ModifiedLikelihood::accepted_types(),
        PearsonCorrelation::accepted_types(),
        seq![CITestDataType::Continuous],
        seq![CITestDataType::Discrete],
    ]
}

/// Why a registry query fails.
#[derive(Debug, Clone, Copy, PartialEq, Eq, Structural)]
pub enum RegistryError {
    /// No test is registered.
    Empty,
}

/// The names of the registered tests and the data types each accepts, in
/// order of registration. Names are kept in lowercase and are unique, so a
/// test is found by its name in any case.
pub struct TestIndex {
    names: Vec<String>,
    types: Vec<Vec<CITestDataType>>,
}

impl TestIndex {
    /// The registered names, in order of registration.
    pub closed spec fn names(&self) -> Seq<Seq<char>> {
        self.names@.map_values(|s: String| s@)
    }

    /// The data types of each registered test, in order of registration.
    pub closed spec fn types(&self) -> Seq<Seq<CITestDataType>> {
        self.types@.map_values(|t: Vec<CITestDataType>| t@)
    }

    /// One entry of data types per name, and no name twice.
    pub closed spec fn wf(&self) -> bool {
        &&& self.names@.len() == self.types@.len()
        &&& forall|i: int, j: int|
            0 <= i < j < self.names@.len() ==> (#[trigger] self.names@[i])@ != (
            #[trigger] self.names@[j])@
    }

    /// Every index has its data types and no name appears twice.
    pub proof fn lemma_index_shape(&self)
        requires
            self.wf(),
        ensures
            self.names().len() == self.types().len(),
            forall|i: int, j: int|
                0 <= i < j < self.names().len() ==> #[trigger] self.names()[i]
                    != #[trigger] self.names()[j],
    {
        assert forall|i: int, j: int|
            0 <= i < j < self.names().len() implies #[trigger] self.names()[i]
            != #[trigger] self.names()[j] by {
            assert(self.names()[i] == self.names@[i]@);
            assert(self.names()[j] == self.names@[j]@);
        }
    }

    /// A registered name is found at one index only: when `key` is the last
    /// name registered, no earlier index holds it, so every name that
    /// lowercases to `key` is found at the last index.
    pub proof fn lemma_last_name_found_there(&self, key: Seq<char>)
        requires
            self.wf(),
            self.names().len() > 0,
            self.names().last() == key,
        ensures
            forall|j: int|
                0 <= j < self.names().len() && #[trigger] self.names()[j] == key ==> j
                    == self.names().len() - 1,
    {
        self.lemma_index_shape();
    }

    /// An index with no tests.
    pub fn new() -> (index: TestIndex)
        ensures
            index.wf(),
            index.names() == Seq::<Seq<char>>::empty(),
            index.types() == Seq::<Seq<CITestDataType>>::empty(),
    {
        let index = TestIndex { names: Vec::new(), types: Vec::new() };
        assert(index.names() =~= Seq::<Seq<char>>::empty());
        assert(index.types() =~= Seq::<Seq<CITestDataType>>::empty());
        index
    }

    /// An index holding every built-in test, in the order of
    /// `all_test_names`, each registered with the data types that the test's
    /// own `data_types` reports.
    pub fn with_all_tests() -> (index: TestIndex)
        ensures
            index.wf(),
            index.names() == all_test_names(),
            index.types() == all_test_types(),
            index.names().len() == 11,
            index.names()[0] == "chi_square"@,
            index.names()[1] == "cressie_read"@,
            index.names()[2] == "freeman_tukey"@,
            index.names()[3] == "g_test"@,
            index.names()[4] == "independence_match"@,
            index.names()[5] == "likelihood_ratio"@,
            index.names()[6] == "log_likelihood"@,
            index.names()[7] == "modified_likelihood"@,
            index.names()[8] == "pearson_correlation"@,
            index.names()[9] == "pearson_equivalence"@,
            index.names()[10] == "power_divergence"@,
            index.types()[0] == ChiSquared::accepted_types(),
            index.types()[1] == CressieRead::accepted_types(),
            index.types()[2] == FreemanTukey::accepted_types(),
            index.types()[3] == GTest::accepted_types(),
            index.types()[4] == IndependenceMatch::accepted_types(),
            index.types()[5] == LikelihoodRatio::accepted_types(),
            index.types()[6] == LogLikelihood::accepted_types(),
            index.types()[7] == ModifiedLikelihood::accepted_types(),
            index.types()[8] == PearsonCorrelation::accepted_types(),
            index.types()[9] == seq![CITestDataType::Continuous],
            index.types()[10] == seq![CITestDataType::Discrete],
    {
        let mut names: Vec<String> = Vec::new();
        let mut types: Vec<Vec<CITestDataType>> = Vec::new();
        names.push("chi_square".to_owned());
        types.push(slice_to_vec(ChiSquared {}.data_types()));
        names.push("cressie_read".to_owned());
        types.push(slice_to_vec(CressieRead {}.data_types()));
        names.push("freeman_tukey".to_owned());
        types.push(slice_to_vec(FreemanTukey {}.data_types()));
        names.push("g_test".to_owned());
        types.push(slice_to_vec(GTest {}.data_types()));
        names.push("independence_match".to_owned());
        types.push(slice_to_vec(IndependenceMatch {}.data_types()));
        names.push("likelihood_ratio".to_owned());
        types.push(slice_to_vec(LikelihoodRatio {}.data_types()));
        names.push("log_likelihood".to_owned());
        types.push(slice_to_vec(LogLikelihood {}.data_types()));
        names.push("modified_likelihood".to_owned());
        types.push(slice_to_vec(ModifiedLikelihood {}.data_types()));
        names.push("pearson_correlation".to_owned());
        types.push(slice_to_vec(PearsonCorrelation {}.data_types()));
        names.push("pearson_equivalence".to_owned());
        types.push(vec![CITestDataType::Continuous]);
        names.push("power_divergence".to_owned());
        types.push(vec![CITestDataType::Discrete]);
        let index = TestIndex { names, types };
        proof {
            reveal_strlit("chi_square");
            reveal_strlit("cressie_read");
            reveal_strlit("freeman_tukey");
            reveal_strlit("g_test");
            reveal_strlit("independence_match");
            reveal_strlit("likelihood_ratio");
            reveal_strlit("log_likelihood");
            reveal_strlit("modified_likelihood");
            reveal_strlit("pearson_correlation");
            reveal_strlit("pearson_equivalence");
            reveal_strlit("power_divergence");
            assert(index.names() =~= all_test_names());
            assert forall|i: int| 0 <= i < index.types@.len() implies index.types@[i]@
                =~= #[trigger] all_test_types()[i] by {}
            assert(index.types() =~= all_test_types());
            assert("chi_square"@.len() == 10);
            assert("cressie_read"@.len() == 12);
            assert("freeman_tukey"@.len() == 13);
            assert("g_test"@.len() == 6);
            assert("independence_match"@.len() == 18);
            assert("likelihood_ratio"@.len() == 16);
            assert("log_likelihood"@.len() == 14);
            assert("modified_likelihood"@.len() == 19);
            assert("pearson_correlation"@.len() == 19);
            assert("pearson_equivalence"@.len() == 19);
            assert("power_divergence"@.len() == 16);
            assert(all_test_names()[5][0] != all_test_names()[10][0]);
            assert(all_test_names()[7][0] != all_test_names()[8][0]);
            assert(all_test_names()[7][0] != all_test_names()[9][0]);
            assert(all_test_names()[8][8] != all_test_names()[9][8]);
            assert forall|i: int, j: int| 0 <= i < j < index.names@.len() implies (
            #[trigger] index.names@[i])@ != (#[trigger] index.names@[j])@ by {
                assert(index.names@[i]@ == all_test_names()[i]);
                assert(index.names@[j]@ == all_test_names()[j]);
                assert(i == 0 || i == 1 || i == 2 || i == 3 || i == 4 || i == 5 || i == 6 || i == 7 || i == 8 || i == 9 || i == 10);
                assert(j == 0 || j == 1 || j == 2 || j == 3 || j == 4 || j == 5 || j == 6 || j == 7 || j == 8 || j == 9 || j == 10);
            }
        }
        index
    }

    /// The number of registered tests.
    pub fn len(&self) -> (n: usize)
        ensures
            n == self.names().len(),
    {
        self.names.len()
    }

    /// The name registered at index `i`.
    pub fn name(&self, i: usize) -> (name: &String)
        requires
            i < self.names().len(),
        ensures
            name@ == self.names()[i as int],
    {
        &self.names[i]
    }

    /// The data types of the test registered at index `i`.
    pub fn data_types(&self, i: usize) -> (types: &Vec<CITestDataType>)
        requires
            self.wf(),
            i < self.names().len(),
        ensures
            types@ == self.types()[i as int],
    {
        &self.types[i]
    }

    /// The index of the name `key`, already in lowercase.
    fn position(&self, key: &String) -> (r: Option<usize>)
        ensures
            r matches Some(i) ==> i < self.names().len() && self.names()[i as int] == key@,
            r is None ==> forall|i: int| 0 <= i < self.names().len() ==> self.names()[i] != key@,
    {
        let mut i: usize = 0;
        while i < self.names.len()
            invariant
                i <= self.names@.len(),
                forall|j: int| 0 <= j < i ==> self.names()[j] != key@,
            decreases self.names@.len() - i,
        {
            if self.names[i] == *key {
                return Some(i);
            }
            i += 1;
        }
        None
    }

    /// The index of the test registered under `name`, in any case.
    pub fn find(&self, name: &str) -> (r: Option<usize>)
        ensures
            r matches Some(i) ==> i < self.names().len() && self.names()[i as int] == lowercase(
                name@,
            ),
            r is None ==> forall|i: int|
                0 <= i < self.names().len() ==> self.names()[i] != lowercase(name@),
    {
        let key = to_lowercase(name);
        self.position(&key)
    }

    /// Register a test under `name` (stored in lowercase) with the data types
    /// it accepts, and return its index; when the name is already registered,
    /// in any case, nothing changes and the result is `None`.
    pub fn add(&mut self, name: &str, types: Vec<CITestDataType>) -> (r: Option<usize>)
        requires
            old(self).wf(),
        ensures
            final(self).wf(),
            r is None <==> exists|i: int|
                0 <= i < old(self).names().len() && old(self).names()[i] == lowercase(name@),
            r is None ==> final(self).names() == old(self).names() && final(self).types()
                == old(self).types(),
            r matches Some(i) ==> {
                &&& i == old(self).names().len()
                &&& final(self).names() == old(self).names().push(lowercase(name@))
                &&& final(self).types() == old(self).types().push(types@)
            },
    {
        let key = to_lowercase(name);
        match self.position(&key) {
            Some(i) => {
                assert(self.names()[i as int] == lowercase(name@));
                None
            },
            None => {
                let i = self.names.len();
                let ghost old_names = self.names@;
                let ghost old_types = self.types@;
                proof {
                    assert forall|a: int| 0 <= a < old_names.len() implies old_names[a]@ != key@ by {
                        assert(old_names.map_values(|s: String| s@)[a] == old_names[a]@);
                    }
                }
                self.names.push(key);
                self.types.push(types);
                proof {
                    assert(self.names() =~= old_names.map_values(|s: String| s@).push(lowercase(name@)));
                    assert(self.types() =~= old_types.map_values(|t: Vec<CITestDataType>| t@).push(
                        self.types@[i as int]@,
                    ));
                }
                Some(i)
            },
        }
    }

    /// The indices of all registered tests, in order of registration; an
    /// error when none is registered.
    pub fn all(&self) -> (r: Result<Vec<usize>, RegistryError>)
        ensures
            r is Err <==> self.names().len() == 0,
            r matches Ok(v) ==> v@ == all_indices(self.names().len()),
    {
        let n = self.names.len();
        if n == 0 {
            return Err(RegistryError::Empty);
        }
        let mut out: Vec<usize> = Vec::new();
        let mut i: usize = 0;
        while i < n
            invariant
                n == self.names().len(),
                i <= n,
                out@ == all_indices(i as nat),
            decreases n - i,
        {
            out.push(i);
            i += 1;
            assert(out@ =~= all_indices(i as nat));
        }
        Ok(out)
    }

    /// The indices of the registered tests that accept `data_type`, in order
    /// of registration; an error when none is registered.
    pub fn with_data_type(&self, data_type: CITestDataType) -> (r: Result<Vec<usize>, RegistryError>)
        requires
            self.wf(),
        ensures
            r is Err <==> self.names().len() == 0,
            r matches Ok(v) ==> v@ == indices_with(self.types(), data_type, self.names().len()),
            r matches Ok(v) ==> forall|i: int|
                0 <= i < self.names().len() ==> (v@.contains(i as usize) <==> (
                #[trigger] self.types()[i]).contains(data_type)),
            r matches Ok(v) ==> forall|k: int| 0 <= k < v@.len() ==> #[trigger] v@[k] < self.names().len(),
            r matches Ok(v) ==> forall|a: int, b: int|
                0 <= a < b < v@.len() ==> #[trigger] v@[a] < #[trigger] v@[b],
    {
        let n = self.names.len();
        proof {
            lemma_indices_with(self.types(), data_type, n as nat);
        }
        if n == 0 {
            return Err(RegistryError::Empty);
        }
        let mut out: Vec<usize> = Vec::new();
        let mut i: usize = 0;
        while i < n
            invariant
                n == self.names().len(),
                n == self.types@.len(),
                i <= n,
                out@ == indices_with(self.types(), data_type, i as nat),
            decreases n - i,
        {
            let types = &self.types[i];
            assert(types@ == self.types()[i as int]);
            let mut found = false;
            let mut j: usize = 0;
            while j < types.len()
                invariant
                    j <= types@.len(),
                    found <==> exists|k: int| 0 <= k < j && types@[k] == data_type,
                decreases types@.len() - j,
            {
                if types[j] == data_type {
                    found = true;
                }
                j += 1;
            }
            if found {
                out.push(i);
            }
            i += 1;
        }
        Ok(out)
    }
}

} // verus!
