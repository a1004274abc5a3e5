//! The background under a spectrum: a line through samples beside the peaks.

use vstd::prelude::*;
use crate::linear::{check_points, degenerate, LinearFitError, LinearParams};
use crate::number::Number;

verus! {

/// The samples of a background and, once it was fitted, its line.
pub struct BackgroundFitter {
    pub x_data: Vec<Number>,
    pub y_data: Vec<Number>,
    pub result: Option<LinearParams>,
}

impl BackgroundFitter {
    /// A background over the given samples that has not been fitted.
    pub fn new(x_data: Vec<Number>, y_data: Vec<Number>) -> (background: BackgroundFitter)
        ensures
            background.x_data == x_data,
            background.y_data == y_data,
            background.result is None,
    {
        BackgroundFitter { x_data, y_data, result: None }
    }

    /// Takes the line that was computed for the samples. A background that
    /// has its line keeps it. One that has none takes the computed line if the
    /// samples admit a line; if they do not, it stays without, and the reason
    /// is returned.
    pub fn fit(&mut self, computed: LinearParams) -> (r: Result<(), LinearFitError>)
        ensures
            final(self).x_data == old(self).x_data,
            final(self).y_data == old(self).y_data,
            old(self).result is Some ==> r is Ok && final(self).result == old(self).result,
            old(self).result is None ==> {
                &&& r == match degenerate(old(self).x_data@, old(self).y_data@) {
                    Some(e) => Err::<(), LinearFitError>(e),
                    None => Ok(()),
                }
                &&& final(self).result == match r {
                    Ok(_) => Some(computed),
                    Err(_) => None,
                }
            },
    {
        if self.result.is_some() {
            return Ok(());
        }
        match check_points(&self.x_data, &self.y_data) {
            Ok(_) => {
                self.result = Some(computed);
                Ok(())
            },
            Err(e) => Err(e),
        }
    }

    /// The line of the background, to be evaluated at the x of a spectrum;
    /// `None` until the background was fitted.
    pub fn get_background(&self) -> (r: Option<LinearParams>)
        ensures
            r == self.result,
    {
        self.result
    }
}

} // verus!
