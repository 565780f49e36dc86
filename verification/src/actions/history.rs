//! Undo and redo, with their status messages.
use crate::app::AppState;
use crate::text::owned;
use vstd::prelude::*;

verus! {

/// Steps back in the history (see [`AppState::undo`]) and reports "Undone",
/// or "Nothing to undo" at the oldest entry.
pub fn undo(app: &mut AppState)
    requires
        old(app).wf(),
    ensures
        final(app).wf(),
        old(app).history_index > 0 ==> {
            &&& final(app).history_index == old(app).history_index - 1
            &&& final(app).tree_view() == old(app).hist()[old(app).history_index - 1]
            &&& final(app).message matches Some(m) && m@ == "Undone"@
        },
        old(app).history_index == 0 ==> {
            &&& final(app).tree == old(app).tree
            &&& final(app).history_index == old(app).history_index
            &&& final(app).message matches Some(m) && m@ == "Nothing to undo"@
        },
        *final(app) == (AppState { tree: final(app).tree, history_index: final(app).history_index,
            message: final(app).message, ..*old(app) }),
{
    if app.undo() {
        app.set_message(owned("Undone"));
    } else {
        app.set_message(owned("Nothing to undo"));
    }
}

/// Steps forward in the history (see [`AppState::redo`]) and reports
/// "Redone", or "Nothing to redo" at the newest entry.
pub fn redo(app: &mut AppState)
    requires
        old(app).wf(),
        old(app).history@.len() > 0,
    ensures
        final(app).wf(),
        old(app).history_index < old(app).history@.len() - 1 ==> {
            &&& final(app).history_index == old(app).history_index + 1
            &&& final(app).tree_view() == old(app).hist()[old(app).history_index + 1]
            &&& final(app).message matches Some(m) && m@ == "Redone"@
        },
        old(app).history_index >= old(app).history@.len() - 1 ==> {
            &&& final(app).tree == old(app).tree
            &&& final(app).history_index == old(app).history_index
            &&& final(app).message matches Some(m) && m@ == "Nothing to redo"@
        },
        *final(app) == (AppState { tree: final(app).tree, history_index: final(app).history_index,
            message: final(app).message, ..*old(app) }),
{
    if app.redo() {
        app.set_message(owned("Redone"));
    } else {
        app.set_message(owned("Nothing to redo"));
    }
}

} // verus!
