//! Constraints that weigh a candidate against the page before it.
use vstd::prelude::*;

pub mod constraints;
