//! A flow-field particle engine over fixed-point coordinates: colour
//! encoding, pixel mapping, the particle lifecycle, frame composition and
//! frame pacing.
pub mod color;
pub mod coord;
pub mod frame;
pub mod pacing;
pub mod particle;
pub mod system;

pub use color::{hue_to_rgb, u32_to_color, Rgb};
pub use coord::{to_pixel_index, Coord, ONE};
pub use particle::{Param, Particle, Velocity};
