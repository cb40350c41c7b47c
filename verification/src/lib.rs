//! Verified core of a line-segment fractal designer: depth capping, painting
//! levels, colours, design-line editing, keyboard decisions and the animation
//! cycle bookkeeping. Geometry and drawing live with the user interface.

pub mod depth;
pub mod palette;
pub mod animation;
pub mod design;
pub mod interaction;
pub mod generation;
