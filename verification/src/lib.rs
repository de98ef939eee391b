//! Colour pipeline and banner layout for the start-up logo: the brand palette,
//! a piecewise-linear gradient through a list of colour stops, and the
//! terminal directives that draw one logo line.

pub mod banner;
pub mod gradient;
pub mod palette;
