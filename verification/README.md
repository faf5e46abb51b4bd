# ci_core

The counting core of discrete conditional independence testing, verified
with Verus.

Observations are integer keys that order and compare the way the observed
values do. The library

- numbers the distinct values of a column in increasing order
  (`build_global_category_map`),
- counts pairs of observations into contingency tables
  (`contingency_table`, `contingency_table_with_categories`),
- groups the rows of a conditioning set (`partition_by`),
- checks that a table admits a power-divergence test and computes its degrees
  of freedom (`check_table`),
- splits a test into strata with tables of the same shape (`stratify`),
- names the tests of the power-divergence family and their powers
  (`ci_tests`),
- keeps the names of registered tests, unique and case-insensitive, with the
  data types each accepts (`TestIndex`).

`src/laws.rs` proves properties that hold across these functions: tables do
not depend on the order of the observations, the category numbering has no
gaps, every stratum has the full shape and a constant conditioning set changes
nothing.

`app/` computes the floating-point statistics and p-values (with `statrs`) on
`ndarray` data, turns `f64` values into keys, and keeps the boxed tests of
the registry at the indices that `TestIndex` gives them.
