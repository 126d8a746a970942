//! Math layout: fragments, runs with automatic spacing, delimiters,
//! operators, scripts and composed constructs.

pub mod fragment;
pub mod run;
pub mod delims;
pub mod operators;
pub mod frac;
pub mod root;
pub mod scripts;
pub mod attach;
pub mod mat;
pub mod text;
