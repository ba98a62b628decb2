//! Polylogarithms in double precision: the exact part.
//!
//! A polylogarithm is evaluated by a series that converges only on part of the plane, so an
//! argument is first assigned to a region, and each region has its own change of variable,
//! sign and correction term. Which region an argument falls in, which values are known in
//! closed form, and how a signed zero is read are decided here, on the bit patterns of the
//! numbers, without rounding. The rounded arithmetic of the series is the caller's.

pub mod complex;
pub mod double;
pub mod li2;
pub mod li4;

pub use complex::{Complex, Normed, Polar};
pub use double::Double;
pub use li2::Li2;
pub use li4::Li4;
