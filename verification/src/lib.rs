//! The drawing and maze logic of a small first-person maze game: a pixel
//! framebuffer, the square-cell maze it is drawn from, and the pixel passes
//! of the top-down map, the minimap and the first-person view.

pub mod framebuffer;
pub mod maze;
pub mod render;
