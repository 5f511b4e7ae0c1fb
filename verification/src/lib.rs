//! A Mamdani-style fuzzy inference engine together with a fixed-rule
//! position simulator for trading signals.
//!
//! Every quantity (universe point, membership degree, price, signal) is a
//! fixed-point integer: the caller picks one scale factor and sticks to it.
//! All the formulas of the engine are ratios or pointwise minima/maxima, so
//! no scale constant ever appears in the library itself; results carry the
//! scale of their inputs. Divisions round toward negative infinity.

pub mod arith;
pub mod backtest;
pub mod errors;
pub mod laws;
pub mod rule;
pub mod set;
pub mod shape;
