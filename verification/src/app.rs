//! The application state: the map, the active node, the mode, the undo
//! history, and the rest of what the actions read and change.
use crate::config::AppConfig;
use crate::model::Node;
use crate::tree::{arena_clone, arena_new, arena_nodes, arena_ok, arena_order, arena_slots, TreeView};
use indextree::{Arena, NodeId};
use vstd::prelude::*;

verus! {

/// What the keyboard currently drives.
#[derive(Debug, Clone, PartialEq)]
pub enum AppMode {
    Normal,
    Editing { buffer: String, cursor_pos: usize },
    Search { query: String },
    Help,
}

/// The state of the application (the viewport, which is kept in floating
/// point, lives with the terminal front end).
pub struct AppState {
    pub running: bool,
    pub mode: AppMode,
    pub tree: Arena<Node>,
    pub root_id: Option<NodeId>,
    pub active_node_id: Option<NodeId>,
    pub config: AppConfig,
    pub filename: Option<String>,
    pub terminal_width: u16,
    pub terminal_height: u16,
    // Undo/Redo history
    pub history: Vec<Arena<Node>>,
    pub history_index: usize,
    // Message for the status line
    pub message: Option<String>,
    // Search state
    pub search_results: Vec<NodeId>,
    pub search_index: usize,
    // Clipboard
    pub clipboard: Option<String>,
    // Unsaved changes
    pub is_dirty: bool,
}

/// The trees of a history, oldest first.
pub open spec fn history_views(h: Seq<Arena<Node>>) -> Seq<TreeView> {
    h.map_values(|a: Arena<Node>| arena_nodes(a))
}

/// The history after recording `current`: the entries from `index` on are
/// dropped, `current` is added, and when there are more than `max` entries
/// the oldest goes.
pub open spec fn pushed_history(h: Seq<TreeView>, index: int, current: TreeView, max: int) -> Seq<TreeView> {
    let grown = h.take(index).push(current);
    if grown.len() > max {
        grown.drop_first()
    } else {
        grown
    }
}

/// The history position after recording an entry at `index`.
pub open spec fn pushed_index(index: int, max: int) -> int {
    if index + 1 > max {
        index
    } else {
        index + 1
    }
}

/// The message `msg` is there and reads `text`.
pub open spec fn says(msg: Option<String>, text: Seq<char>) -> bool {
    msg matches Some(m) && m@ == text
}

/// The settings, the file name, the terminal, the root and the search state
/// are the same in `a` and `b`.
pub open spec fn same_frame(a: AppState, b: AppState) -> bool {
    &&& a.config == b.config
    &&& a.filename == b.filename
    &&& a.running == b.running
    &&& a.terminal_width == b.terminal_width
    &&& a.terminal_height == b.terminal_height
    &&& a.search_results == b.search_results
    &&& a.search_index == b.search_index
    &&& a.root_id == b.root_id
}

/// `b`'s history is `a`'s with `a`'s tree recorded.
pub open spec fn history_pushed(a: AppState, b: AppState) -> bool {
    &&& b.hist() == pushed_history(
        a.hist(),
        a.history_index as int,
        a.tree_view(),
        a.config.max_undo_steps as int,
    )
    &&& b.history_index == pushed_index(a.history_index as int, a.config.max_undo_steps as int)
}

impl AppState {
    pub open spec fn tree_view(&self) -> TreeView {
        arena_nodes(self.tree)
    }

    pub open spec fn hist(&self) -> Seq<TreeView> {
        history_views(self.history@)
    }

    /// The state is consistent: the tree and every history entry are
    /// well-formed arenas, and the history position lies within the history.
    pub open spec fn wf(&self) -> bool {
        &&& arena_ok(self.tree)
        &&& self.history_index <= self.history@.len()
        &&& forall|i: int| 0 <= i < self.history@.len() ==> arena_ok(#[trigger] self.history@[i])
    }

    /// The active node, when there is one, is in the tree.
    pub open spec fn active_ok(&self) -> bool {
        self.active_node_id matches Some(a) ==> arena_nodes(self.tree).contains_key(a)
    }

    /// A fresh state: running, in normal mode, with an empty tree, no root,
    /// no active node, an empty history, no message, no search results, an
    /// empty clipboard, an 80 by 24 terminal.
    pub fn new(config: AppConfig) -> (app: AppState)
        ensures
            app.wf(),
            app.running,
            app.mode == AppMode::Normal,
            app.tree_view() == TreeView::empty(),
            arena_slots(app.tree) == 0,
            app.root_id is None,
            app.active_node_id is None,
            app.config == config,
            app.filename is None,
            app.terminal_width == 80,
            app.terminal_height == 24,
            app.history@.len() == 0,
            app.history_index == 0,
            app.message is None,
            app.search_results@.len() == 0,
            app.search_index == 0,
            app.clipboard is None,
            !app.is_dirty,
    {
        proof {
            crate::tree::lemma_empty_wf();
        }
        AppState {
            running: true,
            mode: AppMode::Normal,
            tree: arena_new(),
            root_id: None,
            active_node_id: None,
            config,
            filename: None,
            terminal_width: 80,
            terminal_height: 24,
            history: Vec::new(),
            history_index: 0,
            message: None,
            search_results: Vec::new(),
            search_index: 0,
            clipboard: None,
            is_dirty: false,
        }
    }

    /// Records the current tree: the redo entries (from the current position
    /// on) are dropped, a copy of the tree is added, and when the history
    /// then holds more than `max_undo_steps` entries, the oldest goes.
    pub fn push_history(&mut self)
        requires
            old(self).wf(),
        ensures
            final(self).wf(),
            final(self).hist() == pushed_history(
                old(self).hist(),
                old(self).history_index as int,
                old(self).tree_view(),
                old(self).config.max_undo_steps as int,
            ),
            final(self).history_index == pushed_index(
                old(self).history_index as int,
                old(self).config.max_undo_steps as int,
            ),
            final(self).history_index == final(self).history@.len(),
            final(self).history@.len() > 0 ==> arena_order(final(self).history@[final(self).history@.len() - 1])
                == arena_order(old(self).tree),
            final(self).tree == old(self).tree,
            final(self).mode == old(self).mode,
            final(self).root_id == old(self).root_id,
            final(self).active_node_id == old(self).active_node_id,
            final(self).config == old(self).config,
            final(self).filename == old(self).filename,
            final(self).running == old(self).running,
            final(self).terminal_width == old(self).terminal_width,
            final(self).terminal_height == old(self).terminal_height,
            final(self).message == old(self).message,
            final(self).search_results == old(self).search_results,
            final(self).search_index == old(self).search_index,
            final(self).clipboard == old(self).clipboard,
            final(self).is_dirty == old(self).is_dirty,
    {
        let ghost h0 = self.hist();
        let ghost index0 = self.history_index as int;
        self.history.truncate(self.history_index);
        let copy = arena_clone(&self.tree);
        let ghost order = arena_order(copy);
        self.history.push(copy);
        self.history_index = self.history.len();
        assert(arena_order(self.history@[self.history@.len() - 1]) == order);
        proof {
            assert(self.hist() =~= h0.take(index0).push(arena_nodes(copy)));
        }
        if self.history.len() > self.config.max_undo_steps {
            let ghost before = self.history@;
            self.history.remove(0);
            self.history_index = self.history_index - 1;
            proof {
                if self.history@.len() > 0 {
                    assert(self.history@[self.history@.len() - 1] == before[before.len() - 1]);
                }
            }
            proof {
                assert(self.hist() =~= h0.take(index0).push(arena_nodes(copy)).drop_first());
            }
        }
    }

    /// Steps back one entry: when the position is above zero it moves down
    /// by one and the tree becomes a copy of the entry there.
    pub fn undo(&mut self) -> (done: bool)
        requires
            old(self).wf(),
        ensures
            final(self).wf(),
            done == (old(self).history_index > 0),
            done ==> final(self).history_index == old(self).history_index - 1 && final(self).tree_view()
                == old(self).hist()[old(self).history_index - 1],
            done ==> arena_order(final(self).tree) == arena_order(old(self).history@[old(self).history_index - 1]),
            !done ==> final(self).history_index == old(self).history_index && final(self).tree
                == old(self).tree,
            final(self).history == old(self).history,
            final(self).mode == old(self).mode,
            final(self).root_id == old(self).root_id,
            final(self).active_node_id == old(self).active_node_id,
            final(self).config == old(self).config,
            final(self).filename == old(self).filename,
            final(self).running == old(self).running,
            final(self).terminal_width == old(self).terminal_width,
            final(self).terminal_height == old(self).terminal_height,
            final(self).message == old(self).message,
            final(self).search_results == old(self).search_results,
            final(self).search_index == old(self).search_index,
            final(self).clipboard == old(self).clipboard,
            final(self).is_dirty == old(self).is_dirty,
    {
        if self.history_index > 0 {
            self.history_index = self.history_index - 1;
            self.tree = arena_clone(&self.history[self.history_index]);
            true
        } else {
            false
        }
    }

    /// Steps forward one entry: when the position is below the last entry it
    /// moves up by one and the tree becomes a copy of the entry there.
    pub fn redo(&mut self) -> (done: bool)
        requires
            old(self).wf(),
            old(self).history@.len() > 0,
        ensures
            final(self).wf(),
            done == (old(self).history_index < old(self).history@.len() - 1),
            done ==> final(self).history_index == old(self).history_index + 1 && final(self).tree_view()
                == old(self).hist()[old(self).history_index + 1],
            done ==> arena_order(final(self).tree) == arena_order(old(self).history@[old(self).history_index + 1]),
            !done ==> final(self).history_index == old(self).history_index && final(self).tree
                == old(self).tree,
            final(self).history == old(self).history,
            final(self).mode == old(self).mode,
            final(self).root_id == old(self).root_id,
            final(self).active_node_id == old(self).active_node_id,
            final(self).config == old(self).config,
            final(self).filename == old(self).filename,
            final(self).running == old(self).running,
            final(self).terminal_width == old(self).terminal_width,
            final(self).terminal_height == old(self).terminal_height,
            final(self).message == old(self).message,
            final(self).search_results == old(self).search_results,
            final(self).search_index == old(self).search_index,
            final(self).clipboard == old(self).clipboard,
            final(self).is_dirty == old(self).is_dirty,
    {
        if self.history_index < self.history.len() - 1 {
            self.history_index = self.history_index + 1;
            self.tree = arena_clone(&self.history[self.history_index]);
            true
        } else {
            false
        }
    }

    /// Shows `msg` on the status line.
    pub fn set_message(&mut self, msg: String)
        ensures
            final(self).message == Some(msg),
            final(self).mode == old(self).mode,
            final(self).tree == old(self).tree,
            final(self).history == old(self).history,
            final(self).history_index == old(self).history_index,
            final(self).root_id == old(self).root_id,
            final(self).active_node_id == old(self).active_node_id,
            final(self).config == old(self).config,
            final(self).filename == old(self).filename,
            final(self).running == old(self).running,
            final(self).terminal_width == old(self).terminal_width,
            final(self).terminal_height == old(self).terminal_height,
            final(self).search_results == old(self).search_results,
            final(self).search_index == old(self).search_index,
            final(self).clipboard == old(self).clipboard,
            final(self).is_dirty == old(self).is_dirty,
    {
        self.message = Some(msg);
    }

    /// Clears the status line message.
    pub fn clear_message(&mut self)
        ensures
            final(self).message is None,
            final(self).mode == old(self).mode,
            final(self).tree == old(self).tree,
            final(self).history == old(self).history,
            final(self).history_index == old(self).history_index,
            final(self).root_id == old(self).root_id,
            final(self).active_node_id == old(self).active_node_id,
            final(self).config == old(self).config,
            final(self).filename == old(self).filename,
            final(self).running == old(self).running,
            final(self).terminal_width == old(self).terminal_width,
            final(self).terminal_height == old(self).terminal_height,
            final(self).search_results == old(self).search_results,
            final(self).search_index == old(self).search_index,
            final(self).clipboard == old(self).clipboard,
            final(self).is_dirty == old(self).is_dirty,
    {
        self.message = None;
    }
}

} // verus!
