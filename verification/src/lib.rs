//! Terminal layout core: scalars, frames, grids, regions, and math composition.

pub mod config;
pub mod flow;
pub mod frame;
pub mod geom;
pub mod math;
pub mod pad;
pub mod pages;
pub mod grid;
pub mod image;
pub mod inline;
pub mod lists;
pub mod regions;
pub mod repeat;
pub mod scalar;
pub mod shapes;
pub mod style;
pub mod text;
