//! A terminal rendering engine that composites layered half-block pixels and
//! emits only the escape sequences needed to update what changed on screen.
pub mod canvas;
pub mod color;
pub mod wire;

pub use canvas::Canvas;
pub use color::{Color, CompositedCell, TerminalPixel};
