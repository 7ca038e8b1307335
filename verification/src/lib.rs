//! Monitoring logic for Apple Silicon machines.

pub mod area;
pub mod canvas;
pub mod document;
pub mod literals;
pub mod markup;
pub mod memory;
pub mod meter;
pub mod overview;
pub mod readings;
pub mod rounding;
pub mod screen;
pub mod session;
pub mod snapshot;
pub mod soc;
pub mod state;
pub mod text;
pub mod views;
pub mod watts;
pub mod words;
