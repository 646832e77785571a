//! Libraries of methods that scripts call as `library.method(...)`.
pub mod lib;
pub mod math;
