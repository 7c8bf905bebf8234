//! Exact argument logic for probability distribution functions.
//!
//! A double is held as its IEEE-754 binary64 bit pattern, so that every
//! test the routines make on their arguments (is it NaN, is it below one,
//! is it a whole number) is integer arithmetic with a proved meaning.
//! What is here decides: the rules on the arguments, the limit cases
//! with a known answer, the status codes and the choice among the
//! expansions. Evaluating an expansion is floating-point work and is
//! left to the caller.

pub mod bd0;
pub mod brcomp;
pub mod chebyshev;
pub mod d1mach;
pub mod dgamma;
pub mod dnorm;
pub mod double;
pub mod dpois;
pub mod dpq;
pub mod dt;
pub mod expansion;
pub mod gamma;
pub mod i1mach;
pub mod integral;
pub mod lbeta;
pub mod lgamma;
pub mod libc;
pub mod nmath;
pub mod pbeta;
pub mod pgamma;
pub mod pnorm;
pub mod pnt;
pub mod pt;
pub mod qnorm;
pub mod ranges;
pub mod stirlerr;
pub mod toms708;
