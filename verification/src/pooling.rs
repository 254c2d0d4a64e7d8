//! The weights of the pooled variance of two cohorts, and the sizes at
//! which it is not defined.
//!
//! The pooled variance of a case cohort of `n1` values and a control cohort
//! of `n2` values weighs the two variances by `n1 - 1` and `n2 - 1` and
//! divides by `n1 + n2 - 2`. The numeric work is the caller's; which sizes
//! admit it, and with which weights, is decided here.

use vstd::prelude::*;

verus! {

/// The weights of the two variances in a pooled variance.
#[derive(Clone, Copy, Debug, PartialEq, Eq, Structural)]
pub struct PoolingWeights {
    /// The weight of the case variance: the size of the case cohort less one.
    pub case: usize,
    /// The weight of the control variance: the size of the control cohort
    /// less one.
    pub control: usize,
}

/// Cohorts of these sizes have a pooled variance: neither is empty, so that
/// each has a mean, and together they hold more than two values, so that
/// the divisor is positive.
pub open spec fn poolable(n_case: int, n_control: int) -> bool {
    n_case >= 1 && n_control >= 1 && n_case + n_control > 2
}

impl PoolingWeights {
    /// The divisor of the pooled variance: the two sizes together, less two.
    pub fn degrees(&self) -> (total: u128)
        ensures
            total == self.case + self.control,
    {
        self.case as u128 + self.control as u128
    }
}

/// The weights for cohorts of `n_case` and `n_control` values, or `None`
/// where cohorts of these sizes have no pooled variance.
pub fn pooling_weights(n_case: usize, n_control: usize) -> (weights: Option<PoolingWeights>)
    ensures
        weights is Some <==> poolable(n_case as int, n_control as int),
        weights matches Some(w) ==> w.case == n_case - 1 && w.control == n_control - 1 && w.case
            + w.control == n_case + n_control - 2 && w.case + w.control > 0,
{
    if n_case == 0 || n_control == 0 || (n_case == 1 && n_control == 1) {
        None
    } else {
        Some(PoolingWeights { case: n_case - 1, control: n_control - 1 })
    }
}

} // verus!
