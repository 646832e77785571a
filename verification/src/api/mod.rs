//! Reading scripts: what is done to a script's text before it runs.
pub mod files;
