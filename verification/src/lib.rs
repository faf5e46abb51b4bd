//! Discrete conditional independence testing: the counting core.
//!
//! Observations are integer keys that compare and order the way the observed
//! values do. The library numbers the categories of a column, counts pairs of
//! observations into contingency tables, splits observations into strata by
//! the rows of a conditioning set, checks whether a table admits a
//! power-divergence test and computes its degrees of freedom. It also names
//! the tests of the family, the power each one uses and the data it accepts,
//! and keeps an index of registered tests by case-insensitive name.
pub mod category;
pub mod check;
pub mod ci_tests;
pub mod laws;
pub mod partition;
pub mod registry;
pub mod strata;
pub mod table;

pub use category::build_global_category_map;
pub use check::{check_table, ContingencyError};
pub use ci_tests::{
    CITestDataType, ChiSquared, CressieRead, FreemanTukey, GTest, IndependenceMatch, Lambda, LikelihoodRatio,
    LogLikelihood, ModifiedLikelihood, PearsonCorrelation, StatisticForm,
};
pub use partition::{partition_by, KeyMatrix};
pub use registry::{RegistryError, TestIndex};
pub use strata::{stratify, Strata};
pub use table::{contingency_table, contingency_table_with_categories, ContingencyTable};
