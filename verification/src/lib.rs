//! Frame-loop decisions and frame profiling for a small windowed engine.

pub mod args;
pub mod frame_loop;
pub mod gpu;
pub mod history;
pub mod palette;
pub mod render;
pub mod sections;
