//! The findings of an analysis, by kind.
use vstd::prelude::*;
use crate::i2c_model::I2cDiagnostic;
use crate::style::StyleDiagnostic;

verus! {

/// All that an analysis found.
#[derive(Debug)]
pub struct Diagnostics {
    pub i2c: Vec<I2cDiagnostic>,
    pub style: Vec<StyleDiagnostic>,
}

impl Diagnostics {
    /// No findings.
    pub fn new() -> (r: Self)
        ensures
            r.i2c@.len() == 0,
            r.style@.len() == 0,
    {
        Diagnostics { i2c: Vec::new(), style: Vec::new() }
    }
}

} // verus!
