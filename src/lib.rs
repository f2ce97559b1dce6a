//! Window placement for river's layout-generator protocol: a carousel layout
//! with one main area and a scrollable strip of secondary windows, and a
//! uniform grid whose shape follows a target aspect ratio.
pub mod carousel;
pub mod command;
pub mod geometry;
pub mod uniform_grid;
