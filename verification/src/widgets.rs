//! Widgets: panels, text, ASCII art, plus interactive components
//! (`Btn` and `Input`) that keep their own state.
pub mod button;
pub mod input;
pub mod panel;
pub mod text;
