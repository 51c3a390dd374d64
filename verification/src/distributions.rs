//! The two models that graphs are drawn from.

pub mod binomial;
pub mod uniform;
