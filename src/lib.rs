//! An evaluator for the untyped lambda calculus over de Bruijn indices:
//! scanner, parser, shifting and substitution, small-step and big-step
//! evaluation, and a printer that restores readable names. A companion
//! module evaluates the calculus of booleans and natural numbers.
pub mod term;
pub mod subst;
pub mod eval;
pub mod print;
pub mod scan;
pub mod parse;
pub mod reparse;
pub mod arith;
