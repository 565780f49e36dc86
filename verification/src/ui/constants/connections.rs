//! The lines drawn from a node to its children.
use vstd::prelude::*;

verus! {

/// From a node to its only child.
pub const SINGLE: &'static str = "─────";

/// From a node to its only shown child, when it has hidden children too.
pub const SINGLE_HIDDEN: &'static str = "─╫───";

/// From a node to the spine of its children.
pub const MULTI: &'static str = "────";

/// From a node to the spine of its shown children, when it has hidden
/// children too.
pub const MULTI_HIDDEN: &'static str = "─╫──";

/// After a collapsed node.
pub const COLLAPSED: &'static str = " [+]";

/// After a collapsed node with hidden children.
pub const COLLAPSED_HIDDEN: &'static str = "─╫─ [+]";

/// After a node whose children are all hidden.
pub const HIDDEN_ONLY: &'static str = "─╫─";

} // verus!
