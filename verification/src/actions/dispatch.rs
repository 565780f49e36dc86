//! The actions, and running one of them on the application state.
use crate::actions::editing::{byte_boundaries_ok, edit_buffer, edit_cursor, edit_ready};
use crate::actions::file::{WriteKind, WriteRequest};
use crate::actions::view::no_freed_slots;
use crate::actions::{clipboard, editing, file, formatting, help, history, movement, node, search, view};
use crate::app::{says, AppState};
use crate::text::owned;
use crate::tree::{arena_get_data, arena_len, arena_node_ids, children_of, node_children, node_id_eq, node_parent, parent_of};
use crate::actions::clipboard::{pasted_after, pasted_under};
use crate::actions::editing::{cut, is_editing, mode_changed, with_title, word_left, word_right};
use crate::actions::file::default_save_path;
use crate::actions::formatting::{spacing_message, stars_modified, toggled_hidden, toggled_symbol};
use crate::actions::html::{html_page, no_name_message};
use crate::actions::levels::leveled;
use crate::actions::movement::{best_child, center_row2, is_extreme, right_tree, vertical_move};
use crate::actions::node::{after_remove_all, editing_empty, next_active_after_delete, next_sibling, previous_sibling, with_new_node};
use crate::actions::rank::rank_modified;
use crate::actions::search::{found_message, matches_query, matching_in, result_message};
use crate::actions::view::{is_ancestor_chain, with_collapse_flags, with_collapsed};
use crate::app::{history_pushed, same_frame, AppMode};
use crate::layout::{app_layout, layout_ready, lookup};
use crate::model::{hidden_marker, starts_with};
use crate::outline::{outline, render, subtree_text};
use crate::text::{byte_len, char_index};
use crate::tree::{after_insert_after, after_insert_before, after_remove, arena_ok, arena_order, live_ids, title_of};
use indextree::NodeId;
use vstd::prelude::*;

verus! {

/// Everything the user can ask for.
#[derive(Debug, Clone, Copy, PartialEq, Eq, Structural)]
pub enum Action {
    // Application control
    Quit,
    ForceQuit,
    // Movement
    GoUp,
    GoDown,
    GoLeft,
    GoRight,
    GoToTop,
    GoToBottom,
    GoToRoot,
    // Node manipulation
    InsertSibling,
    InsertChild,
    DeleteNode,
    DeleteChildren,
    MoveNodeUp,
    MoveNodeDown,
    // Editing
    EditNodeAppend,
    EditNodeReplace,
    TypeChar(char),
    Backspace,
    Delete,
    MoveCursorLeft,
    MoveCursorRight,
    MoveCursorHome,
    MoveCursorEnd,
    MoveCursorWordLeft,
    MoveCursorWordRight,
    DeleteWordBackward,
    DeleteWordForward,
    DeleteToEnd,
    DeleteToStart,
    PasteAtCursor,
    ConfirmEdit,
    CancelEdit,
    // View control
    ToggleCollapse,
    CollapseAll,
    ExpandAll,
    CollapseChildren,
    CollapseOtherBranches,
    CollapseToLevel(usize),
    CenterActiveNode,
    ToggleCenterLock,
    Focus,
    ToggleFocusLock,
    // File operations
    Save,
    SaveAs,
    ExportText,
    ExportHtml,
    // Clipboard
    YankNode,
    YankChildren,
    PasteAsChildren,
    PasteAsSiblings,
    // Undo/Redo
    Undo,
    Redo,
    // Search
    Search,
    TypeSearchChar(char),
    BackspaceSearch,
    ConfirmSearch,
    CancelSearch,
    NextSearchResult,
    PreviousSearchResult,
    // Symbols and formatting
    ToggleSymbol,
    SortSiblings,
    ToggleNumbers,
    ToggleHide,
    ToggleShowHidden,
    // Ranks and stars
    IncreasePositiveRank,
    DecreasePositiveRank,
    IncreaseNegativeRank,
    DecreaseNegativeRank,
    AddStar,
    RemoveStar,
    // Layout
    IncreaseTextWidth,
    DecreaseTextWidth,
    IncreaseLineSpacing,
    DecreaseLineSpacing,
    // Help
    ShowHelp,
    CloseHelp,
}

/// What is left for the front end after an action ran.
pub enum Outcome {
    /// Nothing.
    Done,
    /// Write a file, then report with `file::written`.
    Write(WriteRequest, WriteKind),
    /// Hand this text to the system clipboard as well.
    Copy(String),
    /// Read the system clipboard and paste it at the cursor
    /// (`editing::paste_at_cursor`).
    Paste,
    /// The active node moved: scroll it into view.
    Reveal,
    /// Scroll to the top left corner of the map.
    ScrollHome,
    /// The action works on the view (scrolling, text widths), which the
    /// front end keeps in floating point; it runs it.
    Screen(Action),
}

/// The message shown when quitting with unsaved changes.
pub open spec fn unsaved_message() -> Seq<char> {
    "Unsaved changes! Press Shift+Q to force quit or 's' to save"@
}

/// The actions that the front end runs on its screen layout.
pub open spec fn is_screen_action(action: Action) -> bool {
    match action {
        Action::CenterActiveNode | Action::IncreaseTextWidth | Action::DecreaseTextWidth => true,
        _ => false,
    }
}

/// The actions that read the active node's links or data without checking
/// that it is still in the map (moving, inserting, deleting and moving
/// nodes, starting an edit, collapsing around it, copying and pasting at
/// it, ranks and stars).
pub open spec fn reads_active(action: Action) -> bool {
    match action {
        Action::GoUp | Action::GoDown | Action::GoLeft | Action::GoRight | Action::InsertSibling
        | Action::InsertChild | Action::DeleteNode | Action::DeleteChildren | Action::MoveNodeUp
        | Action::MoveNodeDown | Action::EditNodeAppend | Action::EditNodeReplace
        | Action::CollapseChildren | Action::CollapseOtherBranches | Action::YankNode
        | Action::YankChildren | Action::PasteAsChildren | Action::PasteAsSiblings
        | Action::IncreasePositiveRank | Action::DecreasePositiveRank | Action::IncreaseNegativeRank
        | Action::DecreaseNegativeRank | Action::AddStar | Action::RemoveStar => true,
        _ => false,
    }
}

/// Whether `action` reads the active node (see [`reads_active`]).
pub fn reads_active_node(action: Action) -> (b: bool)
    ensures
        b == reads_active(action),
{
    match action {
        Action::GoUp | Action::GoDown | Action::GoLeft | Action::GoRight | Action::InsertSibling
        | Action::InsertChild | Action::DeleteNode | Action::DeleteChildren | Action::MoveNodeUp
        | Action::MoveNodeDown | Action::EditNodeAppend | Action::EditNodeReplace
        | Action::CollapseChildren | Action::CollapseOtherBranches | Action::YankNode
        | Action::YankChildren | Action::PasteAsChildren | Action::PasteAsSiblings
        | Action::IncreasePositiveRank | Action::DecreasePositiveRank | Action::IncreaseNegativeRank
        | Action::DecreaseNegativeRank | Action::AddStar | Action::RemoveStar => true,
        _ => false,
    }
}

/// The state in which `action` can run without failing: a consistent state
/// whose root is in the tree, whose active node is in it too for the
/// actions that read that node, plus what the action itself needs (a cursor
/// on a character boundary for the edits that cut the buffer there, no
/// removed slots for the actions that visit every slot, ...).
pub open spec fn ready(action: Action, app: AppState) -> bool {
    &&& app.wf()
    &&& reads_active(action) ==> app.active_ok()
    &&& app.root_id matches Some(r) ==> app.tree_view().contains_key(r)
    &&& match action {
        Action::DeleteNode => app.active_node_id is Some ==> app.root_id is Some,
        Action::ConfirmSearch => no_freed_slots(app.tree),
        Action::Redo => app.history@.len() > 0,
        Action::NextSearchResult => app.search_index < usize::MAX,
        Action::PreviousSearchResult => app.search_index <= app.search_results@.len(),
        Action::IncreaseLineSpacing => app.config.line_spacing < usize::MAX,
        Action::AddStar | Action::RemoveStar => app.active_node_id matches Some(a) ==> crate::actions::formatting::count_of(
            crate::tree::title_of(app.tree_view(), a),
            '★',
        ) <= i32::MAX,
        _ => byte_boundaries_ok(action, app.mode),
    }
}

/// What running `action` does: the state goes from `st0` to `st1` as the
/// action's own function says, and `out` is what is left for the front end.
pub open spec fn action_effect(action: Action, st0: AppState, st1: AppState, out: Outcome) -> bool {
    match action {
        Action::Quit => {
            &&& out == Outcome::Done
            &&& if st0.is_dirty {
                &&& says(st1.message, unsaved_message())
                &&& st1 == (AppState { message: st1.message, ..st0 })
            } else {
                st1 == (AppState { running: false, ..st0 })
            }
        },
        Action::ForceQuit => {
            &&& out == Outcome::Done
            &&& st1 == (AppState { running: false, ..st0 })
        },
        Action::CenterActiveNode | Action::IncreaseTextWidth | Action::DecreaseTextWidth => {
            &&& out == Outcome::Screen(action)
            &&& st1 == st0
        },
        Action::PasteAtCursor => {
            &&& out == Outcome::Paste
            &&& st1 == st0
        },
        Action::GoLeft => {
            &&& st1 == (AppState { active_node_id: st1.active_node_id, ..st0 })
            &&& st1.active_node_id == match st0.active_node_id {
                        Some(a) => match parent_of(st0.tree_view(), a) {
                            Some(p) => Some(p),
                            None => Some(a),
                        },
                        None => None,
                    }
            &&& out == Outcome::Reveal
        },
        Action::GoToRoot => {
            &&& st1 == (AppState { active_node_id: st0.root_id, ..st0 })
            &&& out == Outcome::Reveal
        },
        Action::GoUp => {
            &&& st1 == (AppState { active_node_id: st1.active_node_id, ..st0 })
            &&& (out == Outcome::Reveal) == (st1.active_node_id != st0.active_node_id)
            &&& st0.active_node_id is None ==> !(out == Outcome::Reveal)
            &&& st0.active_node_id matches Some(a) ==> {
                        &&& (out == Outcome::Reveal) ==> vertical_move(st0, a, true, st1.active_node_id)
                        &&& layout_ready(st0) ==> vertical_move(st0, a, true, st1.active_node_id)
                    }
            &&& out == Outcome::Reveal || out == Outcome::Done
        },
        Action::GoDown => {
            &&& st1 == (AppState { active_node_id: st1.active_node_id, ..st0 })
            &&& (out == Outcome::Reveal) == (st1.active_node_id != st0.active_node_id)
            &&& st0.active_node_id is None ==> !(out == Outcome::Reveal)
            &&& st0.active_node_id matches Some(a) ==> {
                        &&& (out == Outcome::Reveal) ==> vertical_move(st0, a, false, st1.active_node_id)
                        &&& layout_ready(st0) ==> vertical_move(st0, a, false, st1.active_node_id)
                    }
            &&& out == Outcome::Reveal || out == Outcome::Done
        },
        Action::GoRight => {
            &&& arena_ok(st1.tree)
            &&& st1 == (AppState { tree: st1.tree, active_node_id: st1.active_node_id, ..st0 })
            &&& st0.active_node_id is None ==> st1 == st0 && !(out == Outcome::Reveal)
            &&& st0.active_node_id matches Some(a) ==> {
                        let after = AppState { tree: st1.tree, ..st0 };
                        let cur = lookup(app_layout(after), a);
                        let pick = match cur {
                            Some(e) => best_child(app_layout(after), st0.tree_view()[a].2, center_row2(e), st0.tree_view()[a].2.len() as int),
                            None => None,
                        };
                        &&& st1.tree_view() == right_tree(st0, a)
                        &&& (out == Outcome::Reveal) == (st1.active_node_id != st0.active_node_id)
                        &&& (out == Outcome::Reveal) ==> (pick matches Some(q) && st1.active_node_id == Some(q.0))
                        &&& layout_ready(after) ==> st1.active_node_id == match pick {
                            Some(q) => Some(q.0),
                            None => Some(a),
                        }
                    }
            &&& out == Outcome::Reveal || out == Outcome::Done
        },
        Action::GoToTop => {
            &&& st1 == (AppState { active_node_id: st1.active_node_id, ..st0 })
            &&& (out == Outcome::ScrollHome) ==> (st1.active_node_id matches Some(n) && is_extreme(app_layout(st0), true, n))
            &&& !(out == Outcome::ScrollHome) ==> st1 == st0
            &&& layout_ready(st0) && app_layout(st0).len() > 0 ==> (out == Outcome::ScrollHome)
            &&& out == Outcome::ScrollHome || out == Outcome::Done
        },
        Action::GoToBottom => {
            &&& st1 == (AppState { active_node_id: st1.active_node_id, ..st0 })
            &&& (out == Outcome::Reveal) ==> (st1.active_node_id matches Some(n) && is_extreme(app_layout(st0), false, n))
            &&& !(out == Outcome::Reveal) ==> st1 == st0
            &&& layout_ready(st0) && app_layout(st0).len() > 0 ==> (out == Outcome::Reveal)
            &&& out == Outcome::Reveal || out == Outcome::Done
        },
        Action::InsertSibling => {
            &&& st0.active_node_id is None ==> st1 == st0
            &&& st0.active_node_id matches Some(a) ==> {
                        &&& st1.active_node_id matches Some(n) && !st0.tree_view().contains_key(n)
                            && st1.tree_view() == if parent_of(st0.tree_view(), a) is Some {
                            after_insert_after(with_new_node(st0.tree_view(), n), a, n)
                        } else {
                            with_new_node(st0.tree_view(), n)
                        }
                        &&& editing_empty(st1.mode)
                        &&& history_pushed(st0, st1)
                        &&& same_frame(st0, st1)
                        &&& st1.message == st0.message
                        &&& st1.clipboard == st0.clipboard
                        &&& st1.is_dirty == st0.is_dirty
                    }
            &&& out == Outcome::Done
        },
        Action::InsertChild => {
            &&& st0.active_node_id is None ==> st1 == st0
            &&& st0.active_node_id matches Some(a) ==> {
                        &&& st1.active_node_id matches Some(n) && !st0.tree_view().contains_key(n)
                            && st1.tree_view() == ({
                            let t = crate::tree::after_append(with_new_node(st0.tree_view(), n), a, n);
                            t.insert(a, ((t[a].0.0, false, t[a].0.2), t[a].1, t[a].2))
                        })
                        &&& editing_empty(st1.mode)
                        &&& history_pushed(st0, st1)
                        &&& same_frame(st0, st1)
                        &&& st1.message == st0.message
                        &&& st1.clipboard == st0.clipboard
                        &&& st1.is_dirty == st0.is_dirty
                    }
            &&& out == Outcome::Done
        },
        Action::DeleteNode => {
            &&& st0.active_node_id is None ==> st1 == st0
            &&& st0.active_node_id matches Some(a) ==> if Some(a) == st0.root_id {
                        &&& st1.message matches Some(m) && m@ == "Cannot delete root node"@
                        &&& st1 == (AppState { message: st1.message, ..st0 })
                    } else {
                        &&& st1.tree_view() == after_remove(st0.tree_view(), a)
                        &&& st1.clipboard matches Some(c) && c@ == subtree_text(st0.tree_view(), a, false, 0)
                        &&& st1.active_node_id == match parent_of(st0.tree_view(), a) {
                            Some(p) => Some(next_active_after_delete(st0.tree_view(), a, p)),
                            None => Some(a),
                        }
                        &&& history_pushed(st0, st1)
                        &&& same_frame(st0, st1)
                        &&& st1.mode == st0.mode
                        &&& st1.message == st0.message
                        &&& st1.is_dirty == st0.is_dirty
                    }
            &&& out == Outcome::Done
        },
        Action::DeleteChildren => {
            &&& st0.active_node_id is None ==> st1 == st0
            &&& st0.active_node_id matches Some(a) ==> {
                        let cs = children_of(st0.tree_view(), a);
                        &&& st1.tree_view() == after_remove_all(st0.tree_view(), cs, cs.len() as int)
                        &&& history_pushed(st0, st1)
                        &&& same_frame(st0, st1)
                        &&& st1.active_node_id == st0.active_node_id
                        &&& st1.mode == st0.mode
                        &&& st1.message == st0.message
                        &&& st1.clipboard == st0.clipboard
                        &&& st1.is_dirty == st0.is_dirty
                    }
            &&& out == Outcome::Done
        },
        Action::MoveNodeUp => {
            &&& match st0.active_node_id {
                        Some(a) => match previous_sibling(st0.tree_view(), a) {
                            Some(s) => {
                                &&& st1.tree_view() == after_insert_before(st0.tree_view(), s, a)
                                &&& history_pushed(st0, st1)
                                &&& st1 == (AppState { tree: st1.tree, history: st1.history,
                                    history_index: st1.history_index, ..st0 })
                            },
                            None => st1 == st0,
                        },
                        None => st1 == st0,
                    }
            &&& out == Outcome::Done
        },
        Action::MoveNodeDown => {
            &&& match st0.active_node_id {
                        Some(a) => match next_sibling(st0.tree_view(), a) {
                            Some(s) => {
                                &&& st1.tree_view() == after_insert_after(st0.tree_view(), s, a)
                                &&& history_pushed(st0, st1)
                                &&& st1 == (AppState { tree: st1.tree, history: st1.history,
                                    history_index: st1.history_index, ..st0 })
                            },
                            None => st1 == st0,
                        },
                        None => st1 == st0,
                    }
            &&& out == Outcome::Done
        },
        Action::EditNodeAppend => {
            &&& st0.active_node_id is None ==> st1 == st0
            &&& st0.active_node_id matches Some(a) ==> {
                        &&& st1.mode matches AppMode::Editing { buffer, cursor_pos } && buffer@ == (
                        if false {
                            Seq::<char>::empty()
                        } else {
                            title_of(st0.tree_view(), a)
                        }) && cursor_pos == byte_len(buffer@)
                        &&& st1 == (AppState { mode: st1.mode, ..st0 })
                    }
            &&& out == Outcome::Done
        },
        Action::EditNodeReplace => {
            &&& st0.active_node_id is None ==> st1 == st0
            &&& st0.active_node_id matches Some(a) ==> {
                        &&& st1.mode matches AppMode::Editing { buffer, cursor_pos } && buffer@ == (
                        if true {
                            Seq::<char>::empty()
                        } else {
                            title_of(st0.tree_view(), a)
                        }) && cursor_pos == byte_len(buffer@)
                        &&& st1 == (AppState { mode: st1.mode, ..st0 })
                    }
            &&& out == Outcome::Done
        },
        Action::TypeChar(c) => {
            &&& st0.mode is Editing ==> is_editing(
                        st1.mode,
                        edit_buffer(st0.mode).insert(
                            char_index(edit_buffer(st0.mode), edit_cursor(st0.mode)),
                            c,
                        ),
                        edit_cursor(st0.mode) + 1,
                    )
            &&& !(st0.mode is Editing) ==> st1.mode == st0.mode
            &&& mode_changed(st0, st1)
            &&& out == Outcome::Done
        },
        Action::Backspace => {
            &&& st0.mode is Editing && edit_cursor(st0.mode) > 0 ==> is_editing(
                        st1.mode,
                        edit_buffer(st0.mode).remove(
                            char_index(edit_buffer(st0.mode), edit_cursor(st0.mode) - 1),
                        ),
                        edit_cursor(st0.mode) - 1,
                    )
            &&& !(st0.mode is Editing && edit_cursor(st0.mode) > 0) ==> st1 == st0
            &&& mode_changed(st0, st1)
            &&& out == Outcome::Done
        },
        Action::Delete => {
            &&& st0.mode is Editing && edit_cursor(st0.mode) < byte_len(edit_buffer(st0.mode))
                        ==> is_editing(
                        st1.mode,
                        edit_buffer(st0.mode).remove(
                            char_index(edit_buffer(st0.mode), edit_cursor(st0.mode)),
                        ),
                        edit_cursor(st0.mode),
                    )
            &&& !(st0.mode is Editing && edit_cursor(st0.mode) < byte_len(
                        edit_buffer(st0.mode),
                    )) ==> st1 == st0
            &&& mode_changed(st0, st1)
            &&& out == Outcome::Done
        },
        Action::MoveCursorLeft => {
            &&& st0.mode is Editing ==> is_editing(
                        st1.mode,
                        edit_buffer(st0.mode),
                        if edit_cursor(st0.mode) > 0 {
                            edit_cursor(st0.mode) - 1
                        } else {
                            0
                        },
                    )
            &&& !(st0.mode is Editing) ==> st1 == st0
            &&& mode_changed(st0, st1)
            &&& out == Outcome::Done
        },
        Action::MoveCursorRight => {
            &&& st0.mode is Editing ==> is_editing(
                        st1.mode,
                        edit_buffer(st0.mode),
                        if edit_cursor(st0.mode) < byte_len(edit_buffer(st0.mode)) {
                            edit_cursor(st0.mode) + 1
                        } else {
                            edit_cursor(st0.mode)
                        },
                    )
            &&& !(st0.mode is Editing) ==> st1 == st0
            &&& mode_changed(st0, st1)
            &&& out == Outcome::Done
        },
        Action::MoveCursorHome => {
            &&& st0.mode is Editing ==> is_editing(st1.mode, edit_buffer(st0.mode), 0)
            &&& !(st0.mode is Editing) ==> st1 == st0
            &&& mode_changed(st0, st1)
            &&& out == Outcome::Done
        },
        Action::MoveCursorEnd => {
            &&& st0.mode is Editing ==> is_editing(
                        st1.mode,
                        edit_buffer(st0.mode),
                        byte_len(edit_buffer(st0.mode)) as int,
                    )
            &&& !(st0.mode is Editing) ==> st1 == st0
            &&& mode_changed(st0, st1)
            &&& out == Outcome::Done
        },
        Action::MoveCursorWordLeft => {
            &&& st0.mode is Editing ==> is_editing(
                        st1.mode,
                        edit_buffer(st0.mode),
                        word_left(edit_buffer(st0.mode), edit_cursor(st0.mode)),
                    )
            &&& !(st0.mode is Editing) ==> st1 == st0
            &&& mode_changed(st0, st1)
            &&& out == Outcome::Done
        },
        Action::MoveCursorWordRight => {
            &&& st0.mode is Editing ==> is_editing(
                        st1.mode,
                        edit_buffer(st0.mode),
                        word_right(
                            edit_buffer(st0.mode),
                            edit_cursor(st0.mode),
                            byte_len(edit_buffer(st0.mode)) as int,
                        ),
                    )
            &&& !(st0.mode is Editing) ==> st1 == st0
            &&& mode_changed(st0, st1)
            &&& out == Outcome::Done
        },
        Action::DeleteWordBackward => {
            &&& st0.mode is Editing && edit_cursor(st0.mode) > 0 ==> is_editing(
                        st1.mode,
                        cut(
                            edit_buffer(st0.mode),
                            word_left(edit_buffer(st0.mode), edit_cursor(st0.mode)),
                            edit_cursor(st0.mode),
                        ),
                        word_left(edit_buffer(st0.mode), edit_cursor(st0.mode)),
                    )
            &&& !(st0.mode is Editing && edit_cursor(st0.mode) > 0) ==> st1 == st0
            &&& mode_changed(st0, st1)
            &&& out == Outcome::Done
        },
        Action::DeleteWordForward => {
            &&& st0.mode is Editing && edit_cursor(st0.mode) < byte_len(edit_buffer(st0.mode))
                        ==> is_editing(
                        st1.mode,
                        cut(
                            edit_buffer(st0.mode),
                            edit_cursor(st0.mode),
                            word_right(
                                edit_buffer(st0.mode),
                                edit_cursor(st0.mode),
                                byte_len(edit_buffer(st0.mode)) as int,
                            ),
                        ),
                        edit_cursor(st0.mode),
                    )
            &&& !(st0.mode is Editing && edit_cursor(st0.mode) < byte_len(
                        edit_buffer(st0.mode),
                    )) ==> st1 == st0
            &&& mode_changed(st0, st1)
            &&& out == Outcome::Done
        },
        Action::DeleteToEnd => {
            &&& st0.mode is Editing && edit_cursor(st0.mode) < byte_len(edit_buffer(st0.mode))
                        ==> is_editing(
                        st1.mode,
                        edit_buffer(st0.mode).take(
                            char_index(edit_buffer(st0.mode), edit_cursor(st0.mode)),
                        ),
                        edit_cursor(st0.mode),
                    )
            &&& !(st0.mode is Editing && edit_cursor(st0.mode) < byte_len(
                        edit_buffer(st0.mode),
                    )) ==> st1 == st0
            &&& mode_changed(st0, st1)
            &&& out == Outcome::Done
        },
        Action::DeleteToStart => {
            &&& st0.mode is Editing ==> is_editing(
                        st1.mode,
                        edit_buffer(st0.mode).skip(
                            char_index(edit_buffer(st0.mode), edit_cursor(st0.mode)),
                        ),
                        0,
                    )
            &&& !(st0.mode is Editing) ==> st1 == st0
            &&& mode_changed(st0, st1)
            &&& out == Outcome::Done
        },
        Action::ConfirmEdit => {
            &&& !(st0.mode is Editing) ==> st1 == st0
            &&& st0.mode is Editing && st0.active_node_id is None ==> st1 == (AppState {
                        mode: AppMode::Normal,
                        ..st0
                    })
            &&& st0.mode is Editing ==> (st0.active_node_id matches Some(a) ==> {
                        &&& history_pushed(st0, st1)
                        &&& st1.mode == AppMode::Normal
                        &&& st0.tree_view().contains_key(a) ==> st1.tree_view() == with_title(
                            st0.tree_view(),
                            a,
                            edit_buffer(st0.mode),
                        ) && st1.is_dirty
                        &&& !st0.tree_view().contains_key(a) ==> st1.tree == st0.tree
                            && st1.is_dirty == st0.is_dirty
                        &&& st1 == (AppState {
                            mode: AppMode::Normal,
                            tree: st1.tree,
                            history: st1.history,
                            history_index: st1.history_index,
                            is_dirty: st1.is_dirty,
                            ..st0
                        })
                    })
            &&& out == Outcome::Done
        },
        Action::CancelEdit => {
            &&& st1 == (AppState { mode: AppMode::Normal, ..st0 })
            &&& out == Outcome::Done
        },
        Action::ToggleCollapse => {
            &&& st1.tree_view() == match st0.active_node_id {
                        Some(a) => if st0.tree_view().contains_key(a) {
                            with_collapsed(st0.tree_view(), a, !st0.tree_view()[a].0.1)
                        } else {
                            st0.tree_view()
                        },
                        None => st0.tree_view(),
                    }
            &&& st1 == (AppState { tree: st1.tree, ..st0 })
            &&& out == Outcome::Done
        },
        Action::CollapseAll => {
            &&& st1.tree_view() == with_collapse_flags(st0.tree_view(), |x: NodeId| true)
            &&& st1 == (AppState { tree: st1.tree, ..st0 })
            &&& out == Outcome::Done
        },
        Action::ExpandAll => {
            &&& st1.tree_view() == with_collapse_flags(st0.tree_view(), |x: NodeId| false)
            &&& st1 == (AppState { tree: st1.tree, ..st0 })
            &&& out == Outcome::Done
        },
        Action::CollapseChildren => {
            &&& st1.tree_view() == match st0.active_node_id {
                        Some(a) => with_collapse_flags(
                            st0.tree_view(),
                            |x: NodeId| if st0.tree_view()[a].2.contains(x) { true } else { st0.tree_view()[x].0.1 },
                        ),
                        None => st0.tree_view(),
                    }
            &&& st1 == (AppState { tree: st1.tree, ..st0 })
            &&& out == Outcome::Done
        },
        Action::CollapseOtherBranches => {
            &&& match st0.active_node_id {
                        Some(a) => exists|s: Seq<NodeId>|
                            is_ancestor_chain(st0.tree_view(), a, s) && st1.tree_view()
                                == with_collapse_flags(st0.tree_view(), |x: NodeId| !s.contains(x)),
                        None => st1.tree_view() == st0.tree_view(),
                    }
            &&& st1 == (AppState { tree: st1.tree, ..st0 })
            &&& out == Outcome::Done
        },
        Action::CollapseToLevel(target_level) => {
            &&& st1.tree_view() == match st0.root_id {
                        Some(r) => leveled(st0.tree_view(), r, 0, target_level as nat),
                        None => st0.tree_view(),
                    }
            &&& st1 == (AppState { tree: st1.tree, ..st0 })
            &&& out == Outcome::Done
        },
        Action::ToggleCenterLock => {
            &&& st1.config.center_lock == !st0.config.center_lock
            &&& st1.message matches Some(m) && m@ == (if st1.config.center_lock {
                        "Center lock: ON"@
                    } else {
                        "Center lock: OFF"@
                    })
            &&& st1 == (AppState { config: st1.config, message: st1.message, ..st0 })
            &&& st1.config == (crate::config::AppConfig { center_lock: st1.config.center_lock, ..st0.config })
            &&& out == Outcome::Done
        },
        Action::Focus => {
            &&& st1.message matches Some(m) && m@ == "Focus mode not yet implemented"@
            &&& st1 == (AppState { message: st1.message, ..st0 })
            &&& out == Outcome::Done
        },
        Action::ToggleFocusLock => {
            &&& st1.config.focus_lock == !st0.config.focus_lock
            &&& st1.message matches Some(m) && m@ == (if st1.config.focus_lock {
                        "Focus lock: ON"@
                    } else {
                        "Focus lock: OFF"@
                    })
            &&& st1 == (AppState { config: st1.config, message: st1.message, ..st0 })
            &&& st1.config == (crate::config::AppConfig { focus_lock: st1.config.focus_lock, ..st0.config })
            &&& out == Outcome::Done
        },
        Action::Save => {
            &&& (match out { Outcome::Write(w, _) => Some(w), _ => None::<WriteRequest> }) is Some <==> st0.filename is Some && st0.root_id is Some
            &&& (match out { Outcome::Write(w, _) => Some(w), _ => None::<WriteRequest> }) matches Some(w) ==> w.path == st0.filename->0 && w.content@ == subtree_text(
                        st0.tree_view(),
                        st0.root_id->0,
                        false,
                        0,
                    ) && st1 == st0
            &&& st0.filename is None ==> says(st1.message, "No filename set - use Shift+S for Save As"@)
            &&& st0.filename is Some && st0.root_id is None ==> says(st1.message, "No content to save"@)
            &&& st1 == (AppState { message: st1.message, ..st0 })
            &&& out is Write || out is Done
            &&& out matches Outcome::Write(w, kind) ==> kind == WriteKind::Save
        },
        Action::SaveAs => {
            &&& (match out { Outcome::Write(w, _) => Some(w), _ => None::<WriteRequest> }) is Some <==> st0.root_id is Some
            &&& (match out { Outcome::Write(w, _) => Some(w), _ => None::<WriteRequest> }) matches Some(w) ==> w.path@ == default_save_path() && w.content@ == subtree_text(
                        st0.tree_view(),
                        st0.root_id->0,
                        false,
                        0,
                    ) && st1 == st0
            &&& st0.root_id is None ==> says(st1.message, "No content to save"@)
            &&& st1 == (AppState { message: st1.message, ..st0 })
            &&& out is Write || out is Done
            &&& out matches Outcome::Write(w, kind) ==> kind == WriteKind::SaveAs
        },
        Action::ExportText => {
            &&& st0.root_id is None ==> st1 == st0
            &&& st0.root_id matches Some(r) ==> {
                        &&& st1.clipboard matches Some(c) && c@ == render(outline(st0.tree_view(), r, 0, true))
                        &&& st1.message matches Some(m) && m@ == "Exported the map to clipboard."@
                        &&& st1 == (AppState { clipboard: st1.clipboard, message: st1.message, ..st0 })
                    }
            &&& st1.clipboard matches Some(t) ==> out == Outcome::Copy(t)
            &&& st1.clipboard is None ==> out == Outcome::Done
        },
        Action::ExportHtml => {
            &&& (match out { Outcome::Write(w, _) => Some(w), _ => None::<WriteRequest> }) is Some <==> st0.filename is Some && st0.root_id is Some
            &&& (match out { Outcome::Write(w, _) => Some(w), _ => None::<WriteRequest> }) matches Some(w) ==> w.path@ == st0.filename->0@ + ".html"@ && w.content@ == html_page(
                        st0.tree_view(),
                        st0.root_id->0,
                    ) && st1 == st0
            &&& st0.filename is None ==> says(st1.message, no_name_message()) && st1 == (
                    AppState { message: st1.message, ..st0 })
            &&& st0.filename is Some && st0.root_id is None ==> st1 == st0
            &&& out is Write || out is Done
            &&& out matches Outcome::Write(w, kind) ==> kind == WriteKind::Html
        },
        Action::YankNode => {
            &&& st0.active_node_id is None ==> st1 == st0
            &&& st0.active_node_id matches Some(a) ==> {
                        &&& st1.clipboard matches Some(c) && c@ == subtree_text(st0.tree_view(), a, false, 0)
                        &&& st1.message matches Some(m) && m@ == "Node yanked"@
                        &&& st1 == (AppState { clipboard: st1.clipboard, message: st1.message, ..st0 })
                    }
            &&& st1.clipboard matches Some(t) ==> out == Outcome::Copy(t)
            &&& st1.clipboard is None ==> out == Outcome::Done
        },
        Action::YankChildren => {
            &&& st0.active_node_id is None ==> st1 == st0
            &&& st0.active_node_id matches Some(a) ==> {
                        &&& st1.clipboard matches Some(c) && c@ == subtree_text(st0.tree_view(), a, true, 0)
                        &&& st1.message matches Some(m) && m@ == "Children yanked"@
                        &&& st1 == (AppState { clipboard: st1.clipboard, message: st1.message, ..st0 })
                    }
            &&& st1.clipboard matches Some(t) ==> out == Outcome::Copy(t)
            &&& st1.clipboard is None ==> out == Outcome::Done
        },
        Action::PasteAsChildren => {
            &&& st1.active_ok()
            &&& st0.clipboard is None ==> says(st1.message, "Clipboard is empty"@) && st1 == (AppState {
                        message: st1.message,
                        ..st0
                    })
            &&& st0.clipboard is Some && st0.active_node_id is None ==> st1 == st0
            &&& st0.clipboard matches Some(text) ==> (st0.active_node_id matches Some(a) ==> {
                        &&& history_pushed(st0, st1)
                        &&& says(st1.message, "Pasted as children"@)
                        &&& st1 == (AppState {
                            tree: st1.tree,
                            history: st1.history,
                            history_index: st1.history_index,
                            message: st1.message,
                            ..st0
                        })
                        &&& pasted_under(st0.tree_view(), st1.tree_view(), a, text@)
                    })
            &&& out == Outcome::Done
        },
        Action::PasteAsSiblings => {
            &&& st1.active_ok()
            &&& st0.clipboard is None ==> says(st1.message, "Clipboard is empty"@) && st1 == (AppState {
                        message: st1.message,
                        ..st0
                    })
            &&& st0.clipboard is Some && st0.active_node_id is None ==> st1 == st0
            &&& st0.clipboard matches Some(text) ==> (st0.active_node_id matches Some(a) ==> {
                        &&& history_pushed(st0, st1)
                        &&& st1 == (AppState {
                            tree: st1.tree,
                            history: st1.history,
                            history_index: st1.history_index,
                            message: st1.message,
                            ..st0
                        })
                        &&& st0.tree_view()[a].1 is None ==> says(st1.message, "Cannot paste siblings at root level"@)
                            && st1.tree == st0.tree
                        &&& st0.tree_view()[a].1 matches Some(p) ==> {
                            &&& says(st1.message, "Pasted as siblings"@)
                            &&& pasted_after(st0.tree_view(), st1.tree_view(), p, a, text@)
                        }
                    })
            &&& out == Outcome::Done
        },
        Action::Undo => {
            &&& st0.history_index > 0 ==> {
                        &&& st1.history_index == st0.history_index - 1
                        &&& st1.tree_view() == st0.hist()[st0.history_index - 1]
                        &&& st1.message matches Some(m) && m@ == "Undone"@
                    }
            &&& st0.history_index == 0 ==> {
                        &&& st1.tree == st0.tree
                        &&& st1.history_index == st0.history_index
                        &&& st1.message matches Some(m) && m@ == "Nothing to undo"@
                    }
            &&& st1 == (AppState { tree: st1.tree, history_index: st1.history_index,
                        message: st1.message, ..st0 })
            &&& out == Outcome::Done
        },
        Action::Redo => {
            &&& st0.history_index < st0.history@.len() - 1 ==> {
                        &&& st1.history_index == st0.history_index + 1
                        &&& st1.tree_view() == st0.hist()[st0.history_index + 1]
                        &&& st1.message matches Some(m) && m@ == "Redone"@
                    }
            &&& st0.history_index >= st0.history@.len() - 1 ==> {
                        &&& st1.tree == st0.tree
                        &&& st1.history_index == st0.history_index
                        &&& st1.message matches Some(m) && m@ == "Nothing to redo"@
                    }
            &&& st1 == (AppState { tree: st1.tree, history_index: st1.history_index,
                        message: st1.message, ..st0 })
            &&& out == Outcome::Done
        },
        Action::Search => {
            &&& st1.mode matches AppMode::Search { query } && query@.len() == 0
            &&& st1 == (AppState { mode: st1.mode, ..st0 })
            &&& out == Outcome::Done
        },
        Action::TypeSearchChar(c) => {
            &&& st0.mode matches AppMode::Search { query } ==> st1.mode matches AppMode::Search {
                        query: q2,
                    } && q2@ == query@.push(c)
            &&& !(st0.mode is Search) ==> st1.mode == st0.mode
            &&& st1 == (AppState { mode: st1.mode, ..st0 })
            &&& out == Outcome::Done
        },
        Action::BackspaceSearch => {
            &&& st0.mode matches AppMode::Search { query } ==> st1.mode matches AppMode::Search {
                        query: q2,
                    } && q2@ == if query@.len() > 0 { query@.drop_last() } else { query@ }
            &&& !(st0.mode is Search) ==> st1.mode == st0.mode
            &&& st1 == (AppState { mode: st1.mode, ..st0 })
            &&& out == Outcome::Done
        },
        Action::ConfirmSearch => {
            &&& st1.mode == AppMode::Normal
            &&& st0.mode matches AppMode::Search { query } ==> {
                        &&& st1.search_results@ == matching_in(
                            st0.tree_view(),
                            live_ids(arena_order(st0.tree)),
                            query@,
                        )
                        &&& st1.search_results@.no_duplicates()
                        &&& forall|x: NodeId|
                            #![trigger st1.search_results@.contains(x)]
                            st1.search_results@.contains(x) <==> st0.tree_view().contains_key(x)
                                && matches_query(st0.tree_view(), x, query@)
                        &&& st1.search_index == 0
                        &&& st1.search_results@.len() > 0 ==> {
                            &&& st1.active_node_id == Some(st1.search_results@[0])
                            &&& st1.message matches Some(m) && m@ == found_message(
                                st1.search_results@.len(),
                            )
                        }
                        &&& st1.search_results@.len() == 0 ==> {
                            &&& st1.active_node_id == st0.active_node_id
                            &&& st1.message matches Some(m) && m@ == "No results found"@
                        }
                        &&& st1 == (AppState { mode: AppMode::Normal, search_results: st1.search_results,
                            search_index: 0, active_node_id: st1.active_node_id, message: st1.message,
                            ..st0 })
                    }
            &&& !(st0.mode is Search) ==> st1 == (AppState { mode: AppMode::Normal, ..st0 })
            &&& out == Outcome::Done
        },
        Action::CancelSearch => {
            &&& st1 == (AppState { mode: AppMode::Normal, ..st0 })
            &&& out == Outcome::Done
        },
        Action::NextSearchResult => {
            &&& st0.search_results@.len() == 0 ==> st1 == st0
            &&& st0.search_results@.len() > 0 ==> {
                        let i = ((st0.search_index + 1) % (st0.search_results@.len() as int)) as usize;
                        &&& st1.search_index == i
                        &&& st1.active_node_id == Some(st0.search_results@[i as int])
                        &&& st1.message matches Some(m) && m@ == result_message(
                            i as nat + 1,
                            st0.search_results@.len(),
                        )
                        &&& st1 == (AppState { search_index: i, active_node_id: st1.active_node_id,
                            message: st1.message, ..st0 })
                    }
            &&& out == Outcome::Done
        },
        Action::PreviousSearchResult => {
            &&& st0.search_results@.len() == 0 ==> st1 == st0
            &&& st0.search_results@.len() > 0 ==> {
                        let i = if st0.search_index == 0 {
                            (st0.search_results@.len() - 1) as usize
                        } else {
                            (st0.search_index - 1) as usize
                        };
                        &&& st1.search_index == i
                        &&& st1.active_node_id == Some(st0.search_results@[i as int])
                        &&& st1.message matches Some(m) && m@ == result_message(
                            i as nat + 1,
                            st0.search_results@.len(),
                        )
                        &&& st1 == (AppState { search_index: i, active_node_id: st1.active_node_id,
                            message: st1.message, ..st0 })
                    }
            &&& out == Outcome::Done
        },
        Action::ToggleSymbol => {
            &&& st0.active_node_id is None ==> st1 == st0
            &&& st0.active_node_id matches Some(a) ==> {
                        &&& history_pushed(st0, st1)
                        &&& st0.tree_view().contains_key(a) ==> st1.tree_view() == with_title(
                            st0.tree_view(),
                            a,
                            toggled_symbol(title_of(st0.tree_view(), a), st0.config.symbol1@, st0.config.symbol2@),
                        )
                        &&& !st0.tree_view().contains_key(a) ==> st1.tree == st0.tree
                        &&& st1 == (AppState {
                            tree: st1.tree,
                            history: st1.history,
                            history_index: st1.history_index,
                            ..st0
                        })
                    }
            &&& out == Outcome::Done
        },
        Action::SortSiblings => {
            &&& st1.message matches Some(m) && m@ == "Sorting not yet implemented"@
            &&& st1 == (AppState { message: st1.message, ..st0 })
            &&& out == Outcome::Done
        },
        Action::ToggleNumbers => {
            &&& st1.message matches Some(m) && m@ == "Numbering not yet implemented"@
            &&& st1 == (AppState { message: st1.message, ..st0 })
            &&& out == Outcome::Done
        },
        Action::ToggleHide => {
            &&& st0.active_node_id is None ==> st1 == st0
            &&& st0.active_node_id matches Some(a) ==> {
                        &&& history_pushed(st0, st1)
                        &&& st0.tree_view().contains_key(a) ==> {
                            &&& st1.tree_view() == with_title(
                                st0.tree_view(),
                                a,
                                toggled_hidden(title_of(st0.tree_view(), a)),
                            )
                            &&& st1.message matches Some(m) && m@ == (if starts_with(
                                title_of(st0.tree_view(), a),
                                hidden_marker(),
                            ) {
                                "Node unhidden"@
                            } else {
                                "Node hidden"@
                            })
                        }
                        &&& !st0.tree_view().contains_key(a) ==> st1.tree == st0.tree
                            && st1.message == st0.message
                        &&& st1 == (AppState {
                            tree: st1.tree,
                            history: st1.history,
                            history_index: st1.history_index,
                            message: st1.message,
                            ..st0
                        })
                    }
            &&& out == Outcome::Done
        },
        Action::ToggleShowHidden => {
            &&& st1.config == (crate::config::AppConfig { show_hidden: !st0.config.show_hidden, ..st0.config })
            &&& st1.message matches Some(m) && m@ == (if st1.config.show_hidden {
                        "Show hidden: ON"@
                    } else {
                        "Show hidden: OFF"@
                    })
            &&& st1 == (AppState { config: st1.config, message: st1.message, ..st0 })
            &&& out == Outcome::Done
        },
        Action::IncreasePositiveRank => {
            &&& rank_modified(st0, st1, 1, 0)
            &&& out == Outcome::Done
        },
        Action::DecreasePositiveRank => {
            &&& rank_modified(st0, st1, -1i32, 0)
            &&& out == Outcome::Done
        },
        Action::IncreaseNegativeRank => {
            &&& rank_modified(st0, st1, 0, 1)
            &&& out == Outcome::Done
        },
        Action::DecreaseNegativeRank => {
            &&& rank_modified(st0, st1, 0, -1i32)
            &&& out == Outcome::Done
        },
        Action::AddStar => {
            &&& stars_modified(st0, st1, true)
            &&& out == Outcome::Done
        },
        Action::RemoveStar => {
            &&& stars_modified(st0, st1, false)
            &&& out == Outcome::Done
        },
        Action::IncreaseLineSpacing => {
            &&& st1.config == (crate::config::AppConfig { line_spacing: (st0.config.line_spacing + 1) as usize, ..st0.config })
            &&& st1.message matches Some(m) && m@ == spacing_message(st1.config.line_spacing as nat)
            &&& st1 == (AppState { config: st1.config, message: st1.message, ..st0 })
            &&& out == Outcome::Done
        },
        Action::DecreaseLineSpacing => {
            &&& st1.config == (crate::config::AppConfig {
                        line_spacing: if st0.config.line_spacing > 0 {
                            (st0.config.line_spacing - 1) as usize
                        } else {
                            0
                        },
                        ..st0.config
                    })
            &&& st1.message matches Some(m) && m@ == spacing_message(st1.config.line_spacing as nat)
            &&& st1 == (AppState { config: st1.config, message: st1.message, ..st0 })
            &&& out == Outcome::Done
        },
        Action::ShowHelp => {
            &&& st1 == (AppState { mode: AppMode::Help, ..st0 })
            &&& out == Outcome::Done
        },
        Action::CloseHelp => {
            &&& st1 == (AppState { mode: AppMode::Normal, ..st0 })
            &&& out == Outcome::Done
        },
    }
}

/// Runs `action`. Quitting stops the application unless the map has
/// unsaved changes, which the message then points out; force-quitting stops
/// it in any case. Every other action runs its function; what is left to do
/// outside (writing a file, the system clipboard, the screen layout) comes
/// back as the outcome.
#[verifier::rlimit(100)]
#[verifier::spinoff_prover]
pub fn execute_action(action: Action, app: &mut AppState) -> (out: Outcome)
    requires
        ready(action, *old(app)),
    ensures
        final(app).wf(),
        action == Action::Quit ==> if old(app).is_dirty {
            &&& says(final(app).message, unsaved_message())
            &&& *final(app) == (AppState { message: final(app).message, ..*old(app) })
        } else {
            *final(app) == (AppState { running: false, ..*old(app) })
        },
        action == Action::ForceQuit ==> *final(app) == (AppState { running: false, ..*old(app) }),
        is_screen_action(action) <==> out == Outcome::Screen(action),
        action == Action::PasteAtCursor <==> out is Paste,
        out is Write ==> action == Action::Save || action == Action::SaveAs || action == Action::ExportHtml,
        out is Copy ==> action == Action::YankNode || action == Action::YankChildren || action == Action::ExportText,
        out matches Outcome::Copy(text) ==> final(app).clipboard == Some(text),
        action_effect(action, *old(app), *final(app), out),
{
    match action {
        Action::Quit => {
            if app.is_dirty {
                app.set_message(owned("Unsaved changes! Press Shift+Q to force quit or 's' to save"));
            } else {
                app.running = false;
            }
            Outcome::Done
        },
        Action::ForceQuit => {
            app.running = false;
            Outcome::Done
        },
        Action::GoLeft => {
            movement::go_left(app);
            Outcome::Reveal
        },
        Action::GoToRoot => {
            movement::go_to_root(app);
            Outcome::Reveal
        },
        Action::GoUp => moved(movement::go_up(app)),
        Action::GoDown => moved(movement::go_down(app)),
        Action::GoRight => moved(movement::go_right(app)),
        Action::GoToTop => if movement::go_to_top(app) {
            Outcome::ScrollHome
        } else {
            Outcome::Done
        },
        Action::GoToBottom => moved(movement::go_to_bottom(app)),
        Action::CenterActiveNode | Action::IncreaseTextWidth | Action::DecreaseTextWidth => {
            Outcome::Screen(action)
        },
        Action::InsertSibling => {
            node::insert_sibling(app);
            Outcome::Done
        },
        Action::InsertChild => {
            node::insert_child(app);
            Outcome::Done
        },
        Action::DeleteNode => {
            node::delete_node(app);
            Outcome::Done
        },
        Action::DeleteChildren => {
            node::delete_children(app);
            Outcome::Done
        },
        Action::MoveNodeUp => {
            node::move_node_up(app);
            Outcome::Done
        },
        Action::MoveNodeDown => {
            node::move_node_down(app);
            Outcome::Done
        },
        Action::EditNodeAppend => {
            editing::start_editing(app, false);
            Outcome::Done
        },
        Action::EditNodeReplace => {
            editing::start_editing(app, true);
            Outcome::Done
        },
        Action::TypeChar(c) => {
            editing::type_char(app, c);
            Outcome::Done
        },
        Action::Backspace => {
            editing::backspace(app);
            Outcome::Done
        },
        Action::Delete => {
            editing::delete_char(app);
            Outcome::Done
        },
        Action::MoveCursorLeft => {
            editing::move_cursor_left(app);
            Outcome::Done
        },
        Action::MoveCursorRight => {
            editing::move_cursor_right(app);
            Outcome::Done
        },
        Action::MoveCursorHome => {
            editing::move_cursor_home(app);
            Outcome::Done
        },
        Action::MoveCursorEnd => {
            editing::move_cursor_end(app);
            Outcome::Done
        },
        Action::MoveCursorWordLeft => {
            editing::move_cursor_word_left(app);
            Outcome::Done
        },
        Action::MoveCursorWordRight => {
            editing::move_cursor_word_right(app);
            Outcome::Done
        },
        Action::DeleteWordBackward => {
            editing::delete_word_backward(app);
            Outcome::Done
        },
        Action::DeleteWordForward => {
            editing::delete_word_forward(app);
            Outcome::Done
        },
        Action::DeleteToEnd => {
            editing::delete_to_end(app);
            Outcome::Done
        },
        Action::DeleteToStart => {
            editing::delete_to_start(app);
            Outcome::Done
        },
        Action::PasteAtCursor => Outcome::Paste,
        Action::ConfirmEdit => {
            editing::confirm_edit(app);
            Outcome::Done
        },
        Action::CancelEdit => {
            editing::cancel_edit(app);
            Outcome::Done
        },
        Action::ToggleCollapse => {
            view::toggle_collapse(app);
            Outcome::Done
        },
        Action::CollapseAll => {
            view::collapse_all(app);
            Outcome::Done
        },
        Action::ExpandAll => {
            view::expand_all(app);
            Outcome::Done
        },
        Action::CollapseChildren => {
            view::collapse_children(app);
            Outcome::Done
        },
        Action::CollapseOtherBranches => {
            view::collapse_other_branches(app);
            Outcome::Done
        },
        Action::CollapseToLevel(level) => {
            crate::actions::levels::collapse_to_level(app, level);
            Outcome::Done
        },
        Action::ToggleCenterLock => {
            view::toggle_center_lock(app);
            Outcome::Done
        },
        Action::Focus => {
            view::focus(app);
            Outcome::Done
        },
        Action::ToggleFocusLock => {
            view::toggle_focus_lock(app);
            Outcome::Done
        },
        Action::Save => match file::save(app) {
            Some(w) => Outcome::Write(w, WriteKind::Save),
            None => Outcome::Done,
        },
        Action::SaveAs => match file::save_as(app) {
            Some(w) => Outcome::Write(w, WriteKind::SaveAs),
            None => Outcome::Done,
        },
        Action::ExportText => {
            file::export_text(app);
            copy_out(app)
        },
        Action::ExportHtml => match crate::actions::html::export_html(app) {
            Some(w) => Outcome::Write(w, WriteKind::Html),
            None => Outcome::Done,
        },
        Action::YankNode => {
            clipboard::yank_node(app);
            copy_out(app)
        },
        Action::YankChildren => {
            clipboard::yank_children(app);
            copy_out(app)
        },
        Action::PasteAsChildren => {
            clipboard::paste_as_children(app);
            Outcome::Done
        },
        Action::PasteAsSiblings => {
            clipboard::paste_as_siblings(app);
            Outcome::Done
        },
        Action::Undo => {
            history::undo(app);
            Outcome::Done
        },
        Action::Redo => {
            history::redo(app);
            Outcome::Done
        },
        Action::Search => {
            search::start_search(app);
            Outcome::Done
        },
        Action::TypeSearchChar(c) => {
            search::type_search_char(app, c);
            Outcome::Done
        },
        Action::BackspaceSearch => {
            search::backspace_search(app);
            Outcome::Done
        },
        Action::ConfirmSearch => {
            search::confirm_search(app);
            Outcome::Done
        },
        Action::CancelSearch => {
            search::cancel_search(app);
            Outcome::Done
        },
        Action::NextSearchResult => {
            search::next_search_result(app);
            Outcome::Done
        },
        Action::PreviousSearchResult => {
            search::previous_search_result(app);
            Outcome::Done
        },
        Action::ToggleSymbol => {
            formatting::toggle_symbol(app);
            Outcome::Done
        },
        Action::SortSiblings => {
            formatting::sort_siblings(app);
            Outcome::Done
        },
        Action::ToggleNumbers => {
            formatting::toggle_numbers(app);
            Outcome::Done
        },
        Action::ToggleHide => {
            formatting::toggle_hide(app);
            Outcome::Done
        },
        Action::ToggleShowHidden => {
            formatting::toggle_show_hidden(app);
            Outcome::Done
        },
        Action::IncreasePositiveRank => {
            crate::actions::rank::increase_positive_rank(app);
            Outcome::Done
        },
        Action::DecreasePositiveRank => {
            crate::actions::rank::decrease_positive_rank(app);
            Outcome::Done
        },
        Action::IncreaseNegativeRank => {
            crate::actions::rank::increase_negative_rank(app);
            Outcome::Done
        },
        Action::DecreaseNegativeRank => {
            crate::actions::rank::decrease_negative_rank(app);
            Outcome::Done
        },
        Action::AddStar => {
            formatting::add_star(app);
            Outcome::Done
        },
        Action::RemoveStar => {
            formatting::remove_star(app);
            Outcome::Done
        },
        Action::IncreaseLineSpacing => {
            formatting::increase_line_spacing(app);
            Outcome::Done
        },
        Action::DecreaseLineSpacing => {
            formatting::decrease_line_spacing(app);
            Outcome::Done
        },
        Action::ShowHelp => {
            help::show_help(app);
            Outcome::Done
        },
        Action::CloseHelp => {
            help::close_help(app);
            Outcome::Done
        },
    }
}

/// Scroll to the active node when it moved.
fn moved(m: bool) -> (out: Outcome)
    ensures
        m ==> out == Outcome::Reveal,
        !m ==> out == Outcome::Done,
{
    if m {
        Outcome::Reveal
    } else {
        Outcome::Done
    }
}

/// The clipboard's text, for the system clipboard too.
fn copy_out(app: &AppState) -> (out: Outcome)
    ensures
        app.clipboard matches Some(t) ==> out == Outcome::Copy(t),
        app.clipboard is None ==> out == Outcome::Done,
{
    match &app.clipboard {
        Some(t) => Outcome::Copy(t.clone()),
        None => Outcome::Done,
    }
}

/// The number of full stars ('★') in `s`.
fn star_total(s: &str) -> (n: usize)
    ensures
        n == crate::actions::formatting::count_of(s@, '★'),
{
    let v = crate::text::chars_of(s);
    let mut n: usize = 0;
    let mut i: usize = 0;
    while i < v.len()
        invariant
            0 <= i <= v@.len(),
            v@ == s@,
            n <= i,
            n == crate::actions::formatting::count_of(v@.take(i as int), '★'),
        decreases v@.len() - i,
    {
        proof {
            assert(v@.take(i + 1).drop_last() =~= v@.take(i as int));
        }
        if v[i] == '★' {
            n = n + 1;
        }
        i = i + 1;
    }
    proof {
        assert(v@.take(v@.len() as int) =~= v@);
    }
    n
}

/// Whether `action` can run on `app` (see [`ready`]), for a consistent
/// state.
pub fn action_ready(action: Action, app: &AppState) -> (ok: bool)
    requires
        app.wf(),
    ensures
        ok == ready(action, *app),
{
    let active_ok = match app.active_node_id {
        Some(a) => arena_get_data(&app.tree, a).is_some(),
        None => true,
    };
    let root_ok = match app.root_id {
        Some(r) => arena_get_data(&app.tree, r).is_some(),
        None => true,
    };
    if (reads_active_node(action) && !active_ok) || !root_ok {
        return false;
    }
    match action {
        Action::DeleteNode => app.active_node_id.is_none() || app.root_id.is_some(),
        Action::ConfirmSearch => {
            let ids = arena_node_ids(&app.tree);
            proof {
                ids@.unique_seq_to_set();
            }
            arena_len(&app.tree) == ids.len()
        },
        Action::Redo => app.history.len() > 0,
        Action::NextSearchResult => app.search_index < usize::MAX,
        Action::PreviousSearchResult => app.search_index <= app.search_results.len(),
        Action::IncreaseLineSpacing => app.config.line_spacing < usize::MAX,
        Action::AddStar | Action::RemoveStar => match app.active_node_id {
            Some(a) => {
                let node = arena_get_data(&app.tree, a).unwrap();
                star_total(node.title.as_str()) <= 2147483647
            },
            None => true,
        },
        _ => edit_ready(action, &app.mode),
    }
}

} // verus!
