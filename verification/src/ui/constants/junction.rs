//! The characters where connection lines meet.
use vstd::prelude::*;

verus! {

pub const VERTICAL: char = '│';

pub const TOP_CORNER: char = '╭';

pub const BOTTOM_CORNER: char = '╰';

pub const TOP_RIGHT: char = '╮';

pub const BOTTOM_RIGHT: char = '╯';

pub const MIDDLE_RIGHT: char = '┤';

pub const MIDDLE_LEFT: char = '├';

pub const CROSS: char = '┼';

pub const TOP_TEE: char = '┬';

pub const BOTTOM_TEE: char = '┴';

} // verus!
