//! Core of a small Bézier-curve drawing program: colors, the pixel grid and
//! its PPM encoding, spline bookkeeping, alert texts, and the decisions the
//! interactive front end takes.

pub mod meaningless_bytes;
pub mod pixel_grid;
pub mod point_and_color;
pub mod possible_normal_termination;
pub mod session;
pub mod splines;
pub mod user_interaction_helpers;
