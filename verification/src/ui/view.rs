//! Where node text goes on screen, relative to the layout.
use crate::app::AppState;
use crate::layout::{filtered_children, shown_among};
use crate::tree::{node_id_eq, node_parent, parent_of, tree_wf};
use indextree::NodeId;
use vstd::prelude::*;

verus! {

/// The columns a node's text is shifted right of its layout column: a node
/// among two or more shown siblings leaves room for the junction, one column
/// under the root (for the space after the junction), two deeper down (the
/// junction and a space); other nodes are not shifted.
pub open spec fn x_offset_of(app: AppState, id: NodeId) -> nat {
    let t = app.tree_view();
    match parent_of(t, id) {
        Some(p) => if shown_among(t, t[p].2, app.config.show_hidden).len() > 1 {
            if app.root_id == Some(p) {
                1
            } else {
                2
            }
        } else {
            0
        },
        None => 0,
    }
}

/// The columns node `id`'s text is shifted right (see [`x_offset_of`]).
pub fn x_offset(app: &AppState, id: NodeId) -> (r: u128)
    requires
        tree_wf(app.tree_view()),
        app.tree_view().contains_key(id),
    ensures
        r == x_offset_of(*app, id),
{
    match node_parent(&app.tree, id) {
        Some(p) => {
            let siblings = filtered_children(&app.tree, p, app.config.show_hidden);
            if siblings.len() > 1 {
                let under_root = match app.root_id {
                    Some(r) => node_id_eq(r, p),
                    None => false,
                };
                if under_root {
                    1
                } else {
                    2
                }
            } else {
                0
            }
        },
        None => 0,
    }
}

} // verus!
