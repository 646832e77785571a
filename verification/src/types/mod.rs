//! The scope that scripts run in, and the error type of the engine.
pub mod scope;
pub mod error;
