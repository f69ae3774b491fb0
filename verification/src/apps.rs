//! Programs that run in desktop windows.
pub mod clock;
pub mod settings;
pub mod snake;
pub mod terminal;
