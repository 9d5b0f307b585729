//! Errors of the service's own making.
use vstd::prelude::*;

verus! {

/// An error the service reports in its own words.
#[derive(Debug)]
pub enum AppError {
    Custom(String),
}

} // verus!
