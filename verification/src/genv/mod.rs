//! Two smaller languages beside the main one: a calculator that works on
//! tokens (`ast`), and a variant of the script language with built-in
//! libraries (`script`).
pub mod ast;
pub mod script;
