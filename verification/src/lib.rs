//! Line-oriented text display: switch resolution and the transform pipeline.

pub mod escape;
pub mod number;
pub mod options;
pub mod pipeline;
pub mod session;
pub mod squeeze;
pub mod text;
