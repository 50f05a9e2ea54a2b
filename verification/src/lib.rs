//! A minimal Whitted-style ray tracer over fixed-point coordinates.
//!
//! A world coordinate is an `i64` holding the real value times
//! [`fixed::SCALE`]; every geometric operation states exactly, in integer
//! arithmetic, what it computes. The driver that allocates the image
//! buffer, encodes the file and builds the scene lives outside this crate
//! and calls [`tracer::trace`] once per pixel.

pub mod camera;
pub mod entities;
pub mod fixed;
pub mod intersection;
pub mod ray;
pub mod scene;
pub mod tracer;
pub mod vec;
