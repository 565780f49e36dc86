//! Saving and exporting: what to write and where, and what the status line
//! says about it. The front end does the writing and reports back.
use crate::app::{says, AppState};
use crate::outline::{export_text_node, outline, render, subtree_text};
use crate::text::{owned, push_str, string_from_chars};
use crate::tree::arena_ok;
use vstd::prelude::*;

verus! {

/// Why a file is written.
#[derive(Debug, Clone, Copy, PartialEq, Eq, Structural)]
pub enum WriteKind {
    /// Saving to the map's file.
    Save,
    /// Saving under a new name.
    SaveAs,
    /// Exporting the web page.
    Html,
}

/// A file to write.
pub struct WriteRequest {
    pub path: String,
    pub content: String,
}

/// The file that "save as" writes to.
pub open spec fn default_save_path() -> Seq<char> {
    "mindmap.hmm"@
}

/// Asks to write the map's text (the root's subtree) to the map's file.
/// Without a file name, or without a root, nothing is written and the
/// message says why.
pub fn save(app: &mut AppState) -> (req: Option<WriteRequest>)
    requires
        arena_ok(old(app).tree),
        old(app).root_id matches Some(r) ==> old(app).tree_view().contains_key(r),
    ensures
        req is Some <==> old(app).filename is Some && old(app).root_id is Some,
        req matches Some(w) ==> w.path == old(app).filename->0 && w.content@ == subtree_text(
            old(app).tree_view(),
            old(app).root_id->0,
            false,
            0,
        ) && *final(app) == *old(app),
        old(app).filename is None ==> says(final(app).message, "No filename set - use Shift+S for Save As"@),
        old(app).filename is Some && old(app).root_id is None ==> says(final(app).message, "No content to save"@),
        *final(app) == (AppState { message: final(app).message, ..*old(app) }),
{
    match &app.filename {
        Some(path) => match app.root_id {
            Some(root_id) => {
                let content = crate::outline::map_to_list(&app.tree, root_id, false, 0);
                Some(WriteRequest { path: path.clone(), content })
            },
            None => {
                app.set_message(owned("No content to save"));
                None
            },
        },
        None => {
            app.set_message(owned("No filename set - use Shift+S for Save As"));
            None
        },
    }
}

/// Asks to write the map's text to "mindmap.hmm". Without a root nothing is
/// written and the message says so.
pub fn save_as(app: &mut AppState) -> (req: Option<WriteRequest>)
    requires
        arena_ok(old(app).tree),
        old(app).root_id matches Some(r) ==> old(app).tree_view().contains_key(r),
    ensures
        req is Some <==> old(app).root_id is Some,
        req matches Some(w) ==> w.path@ == default_save_path() && w.content@ == subtree_text(
            old(app).tree_view(),
            old(app).root_id->0,
            false,
            0,
        ) && *final(app) == *old(app),
        old(app).root_id is None ==> says(final(app).message, "No content to save"@),
        *final(app) == (AppState { message: final(app).message, ..*old(app) }),
{
    match app.root_id {
        Some(root_id) => {
            let content = crate::outline::map_to_list(&app.tree, root_id, false, 0);
            proof {
                reveal_strlit("mindmap.hmm");
            }
            Some(WriteRequest { path: owned("mindmap.hmm"), content })
        },
        None => {
            app.set_message(owned("No content to save"));
            None
        },
    }
}

/// `prefix` followed by `s`.
fn prefixed(prefix: &str, s: &str) -> (r: String)
    ensures
        r@ == prefix@ + s@,
{
    let mut v: Vec<char> = Vec::new();
    push_str(&mut v, prefix);
    push_str(&mut v, s);
    string_from_chars(&v)
}

/// `b` is `a` after writing `path` for a save (`as_new`: "save as") that
/// went as `outcome` says: on success the map is saved (after "save as",
/// under the name `path`) and the message says "Saved to `path`" ("Saved as
/// `path`"); on failure the message says "Failed to save: " and the error.
pub open spec fn written_as_saved(a: AppState, b: AppState, path: Seq<char>, outcome: Result<(), String>, as_new: bool) -> bool {
    &&& outcome is Ok ==> {
        &&& !b.is_dirty
        &&& says(b.message, (if as_new {
            "Saved as "@
        } else {
            "Saved to "@
        }) + path)
        &&& if as_new {
            b.filename matches Some(f) && f@ == path
        } else {
            b.filename == a.filename
        }
        &&& b == (AppState { is_dirty: false, message: b.message, filename: b.filename, ..a })
    }
    &&& outcome matches Err(e) ==> {
        &&& says(b.message, "Failed to save: "@ + e@)
        &&& b == (AppState { message: b.message, ..a })
    }
}

/// Takes note of how writing `path` went. On success the map is saved (and,
/// after "save as", `path` becomes its file name) and the message says
/// "Saved to `path`" ("Saved as `path`" after "save as"); on failure the
/// message says "Failed to save: " and the error.
pub fn saved(app: &mut AppState, path: &str, outcome: Result<(), String>, as_new: bool)
    ensures
        written_as_saved(*old(app), *final(app), path@, outcome, as_new),
{
    match outcome {
        Ok(()) => {
            if as_new {
                app.filename = Some(owned(path));
                app.is_dirty = false;
                app.set_message(prefixed("Saved as ", path));
            } else {
                app.set_message(prefixed("Saved to ", path));
                app.is_dirty = false;
            }
        },
        Err(e) => {
            app.set_message(prefixed("Failed to save: ", e.as_str()));
        },
    }
}

/// Takes note of a file written for `kind`: after an export the message
/// says "Exported to `path`"; after a save, see [`saved`].
pub fn written(app: &mut AppState, kind: WriteKind, path: &str, outcome: Result<(), String>)
    ensures
        kind == WriteKind::Html && outcome is Ok ==> says(final(app).message, "Exported to "@ + path@),
        kind == WriteKind::Html && outcome is Ok ==> *final(app) == (AppState { message: final(app).message, ..*old(app) }),
        kind == WriteKind::Html && outcome is Err ==> *final(app) == *old(app),
        kind != WriteKind::Html ==> written_as_saved(*old(app), *final(app), path@, outcome, kind == WriteKind::SaveAs),
{
    match kind {
        WriteKind::Html => {
            if outcome.is_ok() {
                app.set_message(prefixed("Exported to ", path));
            }
        },
        WriteKind::Save => saved(app, path, outcome, false),
        WriteKind::SaveAs => saved(app, path, outcome, true),
    }
}

/// Copies the visible part of the map (the children of collapsed nodes left
/// out) as tab-indented text to the clipboard; the message says "Exported
/// the map to clipboard." Without a root nothing happens.
pub fn export_text(app: &mut AppState)
    requires
        arena_ok(old(app).tree),
        old(app).root_id matches Some(r) ==> old(app).tree_view().contains_key(r),
    ensures
        old(app).root_id is None ==> *final(app) == *old(app),
        old(app).root_id matches Some(r) ==> {
            &&& final(app).clipboard matches Some(c) && c@ == render(outline(old(app).tree_view(), r, 0, true))
            &&& final(app).message matches Some(m) && m@ == "Exported the map to clipboard."@
            &&& *final(app) == (AppState { clipboard: final(app).clipboard, message: final(app).message, ..*old(app) })
        },
{
    if let Some(root_id) = app.root_id {
        let mut output = String::new();
        export_text_node(&app.tree, root_id, &mut output, 0);
        proof {
            assert(output@ =~= render(outline(app.tree_view(), root_id, 0, true)));
        }
        app.clipboard = Some(output);
        app.set_message(owned("Exported the map to clipboard."));
    }
}

} // verus!
