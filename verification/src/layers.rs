//! The simulated network layers: physical channels and the link layer.

pub mod link;
pub mod physical;
