//! Content of the terminal interface's widgets.

pub mod log_overlay;
