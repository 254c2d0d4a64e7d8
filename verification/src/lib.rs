//! Cohen's d effect sizes between sample cohorts, for every row of an
//! expression matrix and every named comparison.
//!
//! The library holds what a run decides, in the order in which a run needs
//! it:
//!
//! - [`rules`]: the match rules, one per comparison label;
//! - [`metadata`]: the descriptors of a sample;
//! - [`columns`]: the header of the matrix, indexed by column name;
//! - [`classify`]: the cohort classifier, which sorts samples into the case
//!   and control cohorts of each comparison;
//! - [`resolve`]: the index resolver, which turns the sample identifiers of
//!   a cohort into column positions;
//! - [`pooling`]: the weights of the pooled variance, and the cohort sizes
//!   that have none;
//! - [`aggregate`]: the streaming aggregator, which says what each
//!   comparison reads of a matrix row and lays out the output rows in a
//!   column order that is fixed before the first row is read;
//! - [`pipeline`]: the stages before the first row, in one call.
//!
//! Reading and writing files and the floating-point arithmetic of the
//! statistic are the caller's: the library hands out the cells to compute
//! on, as text, and takes the statistics back, as text.
//!
//! Every function is verified with Verus against the contract in its
//! header. The module [`fields`] holds what is believed of the `csv` crate,
//! and [`text`] the numerals of the error messages.

pub mod aggregate;
pub mod classify;
pub mod columns;
pub mod fields;
pub mod metadata;
pub mod pipeline;
pub mod pooling;
pub mod resolve;
pub mod rules;
pub mod text;
