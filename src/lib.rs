//! A small compiler front end: a scanner, an LL(1) recursive-descent parser
//! and a code generator that turns each arithmetic expression into a
//! hash-consed DAG and prints three-address pseudo code.
pub mod token;
pub mod lexic;
pub mod production;
pub mod grammar;
pub mod sintactic;
pub mod symbols;
pub mod semantic;
pub mod laws;
