//! Showing and closing the help screen.
use crate::app::{AppMode, AppState};
use vstd::prelude::*;

verus! {

/// Shows the help screen.
pub fn show_help(app: &mut AppState)
    ensures
        *final(app) == (AppState { mode: AppMode::Help, ..*old(app) }),
{
    app.mode = AppMode::Help;
}

/// Closes the help screen.
pub fn close_help(app: &mut AppState)
    ensures
        *final(app) == (AppState { mode: AppMode::Normal, ..*old(app) }),
{
    app.mode = AppMode::Normal;
}

} // verus!
