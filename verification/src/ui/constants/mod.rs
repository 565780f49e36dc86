//! Characters and prefixes that the screen is drawn with.
pub mod connections;
pub mod junction;

use vstd::prelude::*;

verus! {

/// The mark of the cursor in the edited text.
pub const CURSOR_INDICATOR: char = '▌';

/// What the status line shows before the edited text.
pub const STATUS_EDIT_PREFIX: &'static str = "Edit: ";

/// What the status line shows before the search query.
pub const STATUS_SEARCH_PREFIX: &'static str = "Search: ";

} // verus!
