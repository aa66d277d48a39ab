//! The decisions behind the wizard's controllers.

pub mod demo;
pub mod wifi;
pub mod packages;
