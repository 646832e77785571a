//! A variant of the script language whose function calls can reach built-in
//! libraries: a call whose name starts with the name of a registered
//! library, up to its first `.`, goes to that library with its arguments as
//! written. Here atoms evaluate to themselves, statements run one at a time
//! on a context, and a function runs every statement of its body.
pub mod builtin;
pub mod semantics;
pub mod equality;
pub mod context;
pub mod budget;
pub mod parser;
