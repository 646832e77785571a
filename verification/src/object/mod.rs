//! Objects that scripts can hold in a scope.
pub mod ta;
