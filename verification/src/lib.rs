//! A terminal UI toolkit: geometry and layout, colors and styles, a cell
//! buffer with a diff renderer, drawing primitives, an input parser and
//! interactive widgets.
pub mod ansi;
pub mod app;
pub mod apps;
pub mod border;
pub mod buffer;
pub mod color;
pub mod error;
pub mod event;
pub mod layout;
pub mod paint;
pub mod style;
pub mod term;
pub mod canvas;
pub mod frame;
pub mod widgets;
pub mod desktop;
