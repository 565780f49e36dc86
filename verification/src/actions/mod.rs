//! What the user can do to the map and the application, one function per
//! action.
pub mod clipboard;
pub mod editing;
pub mod file;
pub mod formatting;
pub mod help;
pub mod html;
pub mod levels;
pub mod history;
pub mod movement;
pub mod node;
pub mod rank;
pub mod search;
pub mod view;
pub mod dispatch;

pub use dispatch::{execute_action, Action, Outcome};
pub use file::{save, save_as};
