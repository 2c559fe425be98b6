//! A bounded, oldest-first history of stereo sample points for an
//! oscilloscope-style display, together with the plan of line segments a
//! renderer draws from it.

pub mod point;
pub mod window;
pub mod buffer;
pub mod render;
