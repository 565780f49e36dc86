pub mod actions;
pub mod app;
pub mod config;
pub mod event;
pub mod laws;
pub mod layout;
pub mod model;
pub mod outline;
pub mod parser;
pub mod readback;
pub mod text;
pub mod tree;
pub mod ui;

pub use app::{AppMode, AppState};
pub use config::AppConfig;
pub use model::Node;
