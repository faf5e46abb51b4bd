use vstd::prelude::*;

verus! {

/// The kinds of data a conditional independence test accepts.
#[derive(Debug, Clone, Copy, PartialEq, Eq, Structural)]
pub enum CITestDataType {
    Continuous,
    Discrete,
    Mixed,
}

/// The power `numerator / denominator` of a power-divergence statistic.
#[derive(Debug, Clone, Copy, PartialEq, Eq, Structural)]
pub struct Lambda {
    pub numerator: i64,
    pub denominator: u64,
}

/// Which formula of the power-divergence family a power selects.
#[derive(Debug, Clone, Copy, PartialEq, Eq, Structural)]
pub enum StatisticForm {
    /// Power (within `1e-12` of) 0: the G statistic `2 Σ O ln(O / E)`.
    LogLikelihood,
    /// Power -1: `2 Σ E ln(E / O)`.
    ModifiedLikelihood,
    /// Any other power λ: `2 / (λ (λ + 1)) Σ O ((O / E)^λ - 1)`.
    General,
}

impl Lambda {
    /// The power is within `1e-12` of 0: `|numerator| / denominator < 10^-12`.
    pub open spec fn is_near_zero(self) -> bool {
        (if self.numerator < 0 { -self.numerator } else { self.numerator as int }) * 1_000_000_000_000
            < self.denominator
    }

    /// The power is -1.
    pub open spec fn is_minus_one(self) -> bool {
        self.numerator as int == -(self.denominator as int)
    }

    /// The formula that this power selects: a power within `1e-12` of 0 takes
    /// the log-likelihood form, the power -1 its own limit, and any other power
    /// the general formula.
    pub fn form(&self) -> (form: StatisticForm)
        requires
            self.denominator > 0,
        ensures
            self.is_near_zero() ==> form == StatisticForm::LogLikelihood,
            !self.is_near_zero() && self.is_minus_one() ==> form == StatisticForm::ModifiedLikelihood,
            !self.is_near_zero() && !self.is_minus_one() ==> form == StatisticForm::General,
            form == StatisticForm::ModifiedLikelihood ==> self.numerator as int == -(
            self.denominator as int),
            form == StatisticForm::LogLikelihood ==> self.numerator * 1_000_000_000_000
                < self.denominator && -self.numerator * 1_000_000_000_000 < self.denominator,
            form == StatisticForm::General ==> self.numerator as int != -(self.denominator as int)
                && (self.numerator * 1_000_000_000_000 >= self.denominator || -self.numerator
                * 1_000_000_000_000 >= self.denominator),
    {
        let n = self.numerator as i128;
        let magnitude = if n < 0 { -n } else { n };
        if magnitude * 1_000_000_000_000i128 < self.denominator as i128 {
            StatisticForm::LogLikelihood
        } else if self.numerator as i128 == -(self.denominator as i128) {
            StatisticForm::ModifiedLikelihood
        } else {
            StatisticForm::General
        }
    }
}

/// Pearson's chi-squared test: the power-divergence test with power 1.
pub struct ChiSquared {}

/// The Cressie-Read test: the power-divergence test with power 2/3.
pub struct CressieRead {}

/// The Freeman-Tukey test: the power-divergence test with power -1/2.
pub struct FreemanTukey {}

/// The G-test: the power-divergence test with power 0.
pub struct GTest {}

/// The independence-match test.
pub struct IndependenceMatch {}

/// The likelihood-ratio test.
pub struct LikelihoodRatio {}

/// The log-likelihood test: the power-divergence test with power 0.
pub struct LogLikelihood {}

/// The modified log-likelihood test: the power-divergence test with power -1.
pub struct ModifiedLikelihood {}

/// Pearson's correlation test.
pub struct PearsonCorrelation {}

impl ChiSquared {
    /// The power of the statistic: 1.
    pub fn lambda(&self) -> (l: Lambda)
        ensures
            l == (Lambda { numerator: 1, denominator: 1 }),
    {
        Lambda { numerator: 1, denominator: 1 }
    }
}

impl ChiSquared {
    /// The data this test accepts.
    pub open spec fn accepted_types() -> Seq<CITestDataType> {
        seq![CITestDataType::Discrete]
    }

    /// The data this test accepts: discrete.
    pub fn data_types(&self) -> (types: &'static [CITestDataType])
        ensures
            types@ == seq![CITestDataType::Discrete],
            types@ == Self::accepted_types(),
    {
        &[CITestDataType::Discrete]
    }
}

impl CressieRead {
    /// The power of the statistic: 2/3.
    pub fn lambda(&self) -> (l: Lambda)
        ensures
            l == (Lambda { numerator: 2, denominator: 3 }),
    {
        Lambda { numerator: 2, denominator: 3 }
    }
}

impl CressieRead {
    /// The data this test accepts.
    pub open spec fn accepted_types() -> Seq<CITestDataType> {
        seq![CITestDataType::Discrete]
    }

    /// The data this test accepts: discrete.
    pub fn data_types(&self) -> (types: &'static [CITestDataType])
        ensures
            types@ == seq![CITestDataType::Discrete],
            types@ == Self::accepted_types(),
    {
        &[CITestDataType::Discrete]
    }
}

impl FreemanTukey {
    /// The power of the statistic: -1/2.
    pub fn lambda(&self) -> (l: Lambda)
        ensures
            l == (Lambda { numerator: -1i64, denominator: 2 }),
    {
        Lambda { numerator: -1, denominator: 2 }
    }
}

impl FreemanTukey {
    /// The data this test accepts.
    pub open spec fn accepted_types() -> Seq<CITestDataType> {
        seq![CITestDataType::Discrete]
    }

    /// The data this test accepts: discrete.
    pub fn data_types(&self) -> (types: &'static [CITestDataType])
        ensures
            types@ == seq![CITestDataType::Discrete],
            types@ == Self::accepted_types(),
    {
        &[CITestDataType::Discrete]
    }
}

impl GTest {
    /// The power of the statistic: 0.
    pub fn lambda(&self) -> (l: Lambda)
        ensures
            l == (Lambda { numerator: 0, denominator: 1 }),
    {
        Lambda { numerator: 0, denominator: 1 }
    }
}

impl GTest {
    /// The data this test accepts.
    pub open spec fn accepted_types() -> Seq<CITestDataType> {
        seq![CITestDataType::Discrete]
    }

    /// The data this test accepts: discrete.
    pub fn data_types(&self) -> (types: &'static [CITestDataType])
        ensures
            types@ == seq![CITestDataType::Discrete],
            types@ == Self::accepted_types(),
    {
        &[CITestDataType::Discrete]
    }
}

impl IndependenceMatch {
    /// The data this test accepts.
    pub open spec fn accepted_types() -> Seq<CITestDataType> {
        seq![CITestDataType::Continuous, CITestDataType::Discrete, CITestDataType::Mixed]
    }

    /// The data this test accepts: continuous, discrete and mixed.
    pub fn data_types(&self) -> (types: &'static [CITestDataType])
        ensures
            types@ == seq![CITestDataType::Continuous, CITestDataType::Discrete, CITestDataType::Mixed],
            types@ == Self::accepted_types(),
    {
        &[CITestDataType::Continuous, CITestDataType::Discrete, CITestDataType::Mixed]
    }
}

impl LikelihoodRatio {
    /// The data this test accepts.
    pub open spec fn accepted_types() -> Seq<CITestDataType> {
        seq![CITestDataType::Discrete]
    }

    /// The data this test accepts: discrete.
    pub fn data_types(&self) -> (types: &'static [CITestDataType])
        ensures
            types@ == seq![CITestDataType::Discrete],
            types@ == Self::accepted_types(),
    {
        &[CITestDataType::Discrete]
    }
}

impl LogLikelihood {
    /// The power of the statistic: 0.
    pub fn lambda(&self) -> (l: Lambda)
        ensures
            l == (Lambda { numerator: 0, denominator: 1 }),
    {
        Lambda { numerator: 0, denominator: 1 }
    }
}

impl LogLikelihood {
    /// The data this test accepts.
    pub open spec fn accepted_types() -> Seq<CITestDataType> {
        seq![CITestDataType::Discrete]
    }

    /// The data this test accepts: discrete.
    pub fn data_types(&self) -> (types: &'static [CITestDataType])
        ensures
            types@ == seq![CITestDataType::Discrete],
            types@ == Self::accepted_types(),
    {
        &[CITestDataType::Discrete]
    }
}

impl ModifiedLikelihood {
    /// The power of the statistic: -1.
    pub fn lambda(&self) -> (l: Lambda)
        ensures
            l == (Lambda { numerator: -1i64, denominator: 1 }),
    {
        Lambda { numerator: -1, denominator: 1 }
    }
}

impl ModifiedLikelihood {
    /// The data this test accepts.
    pub open spec fn accepted_types() -> Seq<CITestDataType> {
        seq![CITestDataType::Discrete]
    }

    /// The data this test accepts: discrete.
    pub fn data_types(&self) -> (types: &'static [CITestDataType])
        ensures
            types@ == seq![CITestDataType::Discrete],
            types@ == Self::accepted_types(),
    {
        &[CITestDataType::Discrete]
    }
}

impl PearsonCorrelation {
    /// The data this test accepts.
    pub open spec fn accepted_types() -> Seq<CITestDataType> {
        seq![CITestDataType::Continuous]
    }

    /// The data this test accepts: continuous.
    pub fn data_types(&self) -> (types: &'static [CITestDataType])
        ensures
            types@ == seq![CITestDataType::Continuous],
            types@ == Self::accepted_types(),
    {
        &[CITestDataType::Continuous]
    }
}

} // verus!
