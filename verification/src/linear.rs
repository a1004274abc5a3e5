//! The straight-line fit: what it is given and what it keeps.
//!
//! The least-squares sums are computed by the caller. What is decided here
//! is whether the data admit a line at all, and what is stored.

use vstd::prelude::*;
use crate::number::Number;

verus! {

/// A fitted line: slope and intercept, each with its estimated uncertainty.
#[derive(Clone, Copy, Debug)]
pub struct LinearParams {
    pub slope: Number,
    pub intercept: Number,
    pub slope_uncertainty: Number,
    pub intercept_uncertainty: Number,
}

/// Why data admit no line.
#[derive(Clone, Copy, Debug, PartialEq, Eq, Structural)]
pub enum LinearFitError {
    /// Fewer than two points.
    TooFewPoints,
    /// Two points or more, all at the same x.
    ConstantX,
}

/// The number of points that two columns give: as many as the shorter has.
pub open spec fn point_count(x: Seq<Number>, y: Seq<Number>) -> nat {
    if x.len() <= y.len() {
        x.len()
    } else {
        y.len()
    }
}

/// Whether two numbers are the same number. Plus and minus zero are; what
/// is not a number is the same as nothing.
pub open spec fn same_number(a: Number, b: Number) -> bool {
    !a.spec_is_nan() && !b.spec_is_nan() && a.spec_rank() == b.spec_rank()
}

/// Whether the first `n` of the numbers are all the same number.
pub open spec fn constant(x: Seq<Number>, n: nat) -> bool {
    forall|i: int| 0 <= i < n ==> same_number(x[0], #[trigger] x[i])
}

/// Why the points admit no line, if they admit none: there are fewer than
/// two, or all lie at the same x.
pub open spec fn degenerate(x: Seq<Number>, y: Seq<Number>) -> Option<LinearFitError> {
    if point_count(x, y) < 2 {
        Some(LinearFitError::TooFewPoints)
    } else if constant(x, point_count(x, y)) {
        Some(LinearFitError::ConstantX)
    } else {
        None
    }
}

/// Says why the points admit no line, or that they admit one.
pub fn check_points(x: &Vec<Number>, y: &Vec<Number>) -> (r: Result<(), LinearFitError>)
    ensures
        r == match degenerate(x@, y@) {
            Some(e) => Err::<(), LinearFitError>(e),
            None => Ok(()),
        },
{
    let n = if x.len() <= y.len() {
        x.len()
    } else {
        y.len()
    };
    if n < 2 {
        return Err(LinearFitError::TooFewPoints);
    }
    let first = x[0];
    if first.is_nan() {
        assert(!same_number(x@[0], x@[0]));
        return Ok(());
    }
    let mut i: usize = 1;
    while i < n
        invariant
            1 <= i <= n,
            n == point_count(x@, y@),
            first == x@[0],
            !first.spec_is_nan(),
            forall|j: int| 0 <= j < i ==> same_number(x@[0], #[trigger] x@[j]),
        decreases n - i,
    {
        let other = x[i];
        if other.is_nan() || other.rank() != first.rank() {
            assert(!same_number(x@[0], x@[i as int]));
            return Ok(());
        }
        i = i + 1;
    }
    Err(LinearFitError::ConstantX)
}

/// A straight-line fit of one set of points.
pub struct LinearFitter {
    pub x_data: Vec<Number>,
    pub y_data: Vec<Number>,
    /// The line, once one was fitted.
    pub fit_params: Option<LinearParams>,
}

impl LinearFitter {
    /// A fit of the given points that has not been carried out.
    pub fn new(x_data: Vec<Number>, y_data: Vec<Number>) -> (fit: LinearFitter)
        ensures
            fit.x_data == x_data,
            fit.y_data == y_data,
            fit.fit_params is None,
    {
        LinearFitter { x_data, y_data, fit_params: None }
    }

    /// Takes the line that was computed for the points. It is kept if the
    /// points admit a line. If they do not, the reason is returned and the fit
    /// has no line, whatever was computed.
    pub fn perform_linear_fit(&mut self, computed: LinearParams) -> (r: Result<(), LinearFitError>)
        ensures
            final(self).x_data == old(self).x_data,
            final(self).y_data == old(self).y_data,
            r == match degenerate(old(self).x_data@, old(self).y_data@) {
                Some(e) => Err::<(), LinearFitError>(e),
                None => Ok(()),
            },
            final(self).fit_params == match r {
                Ok(_) => Some(computed),
                Err(_) => None,
            },
    {
        match check_points(&self.x_data, &self.y_data) {
            Ok(_) => {
                self.fit_params = Some(computed);
                Ok(())
            },
            Err(e) => {
                self.fit_params = None;
                Err(e)
            },
        }
    }
}

} // verus!
