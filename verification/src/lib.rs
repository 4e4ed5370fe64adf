//! A minimal scripting-language front end: a lexer and a left-to-right
//! expression evaluator for a two-statement language (`print "text"` and
//! `printcal <arithmetic chain>`).
//!
//! Numbers are held as exact rationals, so every contract can speak of the
//! exact mathematical value of a decimal literal and of an evaluated chain.

pub mod eval;
pub mod interp;
pub mod lexer;
pub mod rational;
pub mod token;
