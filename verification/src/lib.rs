//! Binary-classification evaluation metrics over scored observations.
//!
//! The engine works on the discrete shape of the data: for each observation,
//! whether its label is the positive class and whether its score ties the
//! previous observation's score (both decided by the caller with the shared
//! epsilon band, highest score first).  From those flags it builds the
//! threshold sweep (cumulative false/true positive counts per distinct score)
//! and exact rational areas under the ROC curve.  Floating-point concerns --
//! reading scores, the epsilon comparison itself, exponentials and final
//! divisions -- belong to the caller.

use vstd::prelude::*;

pub mod args;
pub mod metric;
pub mod sweep;

verus! {

/// Which metric a caller asks for; results come back in request order.
pub enum EvalFunc {
    AdaBoostLoss,
    ErrorRate,
    AUPRC,
    AUROC,
}

/// Why the engine refused an input.
#[derive(Clone, Copy, PartialEq, Eq, Debug, Structural)]
pub enum MetricError {
    /// The observation sequence was empty: every metric needs at least one
    /// observation, and an empty input is reported rather than folded into a
    /// zero or undefined result.
    InvalidInput,
    /// The ranking metrics divide by the total positive and negative counts;
    /// an input whose labels are all of one class leaves one of those
    /// denominators zero.
    DegenerateInput,
}

} // verus!
