//! What the screen shows, as text: the drawing characters, the help screen
//! and the status line.
pub mod canvas;
pub mod connections;
pub mod constants;
pub mod help;
pub mod mindmap;
pub mod status_line;
pub mod text;
pub mod view;
