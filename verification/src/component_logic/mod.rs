//! Pure functions behind the UI components: code-canvas indentation, the
//! keyboard shortcuts of the lesson screen and the chip picker layout.
pub mod canvas;
pub mod keyboard;
pub mod picker;
