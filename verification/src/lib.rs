//! A color library built around an exact scalar type: colors are stored in
//! HSL form, converted losslessly to and from 8-bit RGB, and compared by
//! their displayable RGB projection rather than by their raw HSL fields.

pub mod scalar;
pub mod hue;
pub mod color;
pub mod laws;
pub mod io;

pub use scalar::Scalar;
pub use hue::Hue;
pub use color::{Color, RGBA, HSLA};
pub use io::{ColorArgIterator, ColorError, ColorRequest, StdinRead};
