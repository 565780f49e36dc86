//! Turning key presses into actions, by mode.
use crate::actions::Action;
use crate::app::{AppMode, AppState};
use vstd::prelude::*;

verus! {

/// A key, as the terminal reports it.
#[derive(Debug, Clone, Copy, PartialEq, Eq, Structural)]
pub enum Key {
    Char(char),
    Up,
    Down,
    Left,
    Right,
    Enter,
    Tab,
    Esc,
    Backspace,
    Delete,
    Home,
    End,
    /// Any other key.
    Other,
}

/// The Shift modifier bit.
pub const SHIFT: u8 = 0b0000_0001;

/// The Control modifier bit.
pub const CONTROL: u8 = 0b0000_0010;

/// The Alt modifier bit.
pub const ALT: u8 = 0b0000_0100;

/// A key press: the key and the modifier keys held (a set of bits).
#[derive(Debug, Clone, Copy, PartialEq, Eq, Structural)]
pub struct KeyPress {
    pub code: Key,
    pub modifiers: u8,
}

/// The key map of normal mode, as a list read from the top: the first line
/// that matches the key and the exact set of modifiers gives the action
/// (`_` for any modifiers).
pub open spec fn normal_binding(k: KeyPress) -> Option<Action> {
    match (k.code, k.modifiers) {
        (Key::Char('q'), 0) => Some(Action::Quit),
        (Key::Char('Q'), SHIFT) => Some(Action::ForceQuit),
        (Key::Char('c'), CONTROL) => Some(Action::Quit),
        (Key::Up, ALT) => Some(Action::AddStar),
        (Key::Down, ALT) => Some(Action::RemoveStar),
        (Key::Char('h'), 0) | (Key::Left, _) => Some(Action::GoLeft),
        (Key::Char('j'), 0) | (Key::Down, _) => Some(Action::GoDown),
        (Key::Char('k'), 0) | (Key::Up, _) => Some(Action::GoUp),
        (Key::Char('l'), 0) | (Key::Right, _) => Some(Action::GoRight),
        (Key::Char('o'), 0) | (Key::Enter, 0) => Some(Action::InsertSibling),
        (Key::Char('O'), SHIFT) | (Key::Tab, 0) => Some(Action::InsertChild),
        (Key::Char(' '), 0) => Some(Action::ToggleCollapse),
        (Key::Char('d'), 0) => Some(Action::DeleteNode),
        (Key::Char('D'), SHIFT) => Some(Action::DeleteChildren),
        (Key::Char('e'), 0) | (Key::Char('i'), 0) => Some(Action::EditNodeAppend),
        (Key::Char('E'), SHIFT) | (Key::Char('I'), SHIFT) => Some(Action::EditNodeReplace),
        (Key::Char('a'), 0) => Some(Action::EditNodeAppend),
        (Key::Char('A'), SHIFT) => Some(Action::EditNodeReplace),
        (Key::Char('c'), 0) => Some(Action::CenterActiveNode),
        (Key::Char('C'), SHIFT) => Some(Action::ToggleCenterLock),
        (Key::Char('f'), 0) => Some(Action::Focus),
        (Key::Char('F'), SHIFT) => Some(Action::ToggleFocusLock),
        (Key::Char('v'), 0) => Some(Action::CollapseAll),
        (Key::Char('b'), 0) => Some(Action::ExpandAll),
        (Key::Char('V'), SHIFT) => Some(Action::CollapseChildren),
        (Key::Char('r'), 0) => Some(Action::CollapseOtherBranches),
        (Key::Char('1'), 0) => Some(Action::CollapseToLevel(1)),
        (Key::Char('2'), 0) => Some(Action::CollapseToLevel(2)),
        (Key::Char('3'), 0) => Some(Action::CollapseToLevel(3)),
        (Key::Char('4'), 0) => Some(Action::CollapseToLevel(4)),
        (Key::Char('5'), 0) => Some(Action::CollapseToLevel(5)),
        (Key::Char('g'), 0) => Some(Action::GoToTop),
        (Key::Char('G'), SHIFT) => Some(Action::GoToBottom),
        (Key::Char('m'), 0) | (Key::Char('~'), 0) => Some(Action::GoToRoot),
        (Key::Char('s'), 0) => Some(Action::Save),
        (Key::Char('S'), SHIFT) => Some(Action::SaveAs),
        (Key::Char('x'), 0) => Some(Action::ExportHtml),
        (Key::Char('X'), SHIFT) => Some(Action::ExportText),
        (Key::Char('y'), 0) => Some(Action::YankNode),
        (Key::Char('Y'), SHIFT) => Some(Action::YankChildren),
        (Key::Char('p'), 0) => Some(Action::PasteAsChildren),
        (Key::Char('P'), SHIFT) => Some(Action::PasteAsSiblings),
        (Key::Char('J'), SHIFT) => Some(Action::MoveNodeDown),
        (Key::Char('K'), SHIFT) => Some(Action::MoveNodeUp),
        (Key::Char('u'), 0) => Some(Action::Undo),
        (Key::Char('r'), CONTROL) => Some(Action::Redo),
        (Key::Char('/'), 0) | (Key::Char('f'), CONTROL) => Some(Action::Search),
        (Key::Char('n'), 0) => Some(Action::NextSearchResult),
        (Key::Char('N'), SHIFT) => Some(Action::PreviousSearchResult),
        (Key::Char('t'), 0) => Some(Action::ToggleSymbol),
        (Key::Char('T'), SHIFT) => Some(Action::SortSiblings),
        (Key::Char('#'), 0) => Some(Action::ToggleNumbers),
        (Key::Char('w'), 0) => Some(Action::IncreaseTextWidth),
        (Key::Char('W'), SHIFT) => Some(Action::DecreaseTextWidth),
        (Key::Char('z'), 0) => Some(Action::DecreaseLineSpacing),
        (Key::Char('Z'), SHIFT) => Some(Action::IncreaseLineSpacing),
        (Key::Char('H'), SHIFT) => Some(Action::ToggleHide),
        (Key::Char('h'), CONTROL) => Some(Action::ToggleShowHidden),
        (Key::Char('='), 0) => Some(Action::IncreasePositiveRank),
        (Key::Char('+'), 0) => Some(Action::DecreasePositiveRank),
        (Key::Char('-'), 0) => Some(Action::IncreaseNegativeRank),
        (Key::Char('_'), SHIFT) => Some(Action::DecreaseNegativeRank),
        (Key::Char('?'), 0) => Some(Action::ShowHelp),
        _ => None,
    }
}

/// The action of a key press in normal mode (see [`normal_binding`]).
pub fn handle_normal_mode(key: KeyPress) -> (a: Option<Action>)
    ensures
        a == normal_binding(key),
{
    let m = key.modifiers;
    match key.code {
        Key::Up => if m == ALT {
            Some(Action::AddStar)
        } else {
            Some(Action::GoUp)
        },
        Key::Down => if m == ALT {
            Some(Action::RemoveStar)
        } else {
            Some(Action::GoDown)
        },
        Key::Left => Some(Action::GoLeft),
        Key::Right => Some(Action::GoRight),
        Key::Enter => if m == 0 {
            Some(Action::InsertSibling)
        } else {
            None
        },
        Key::Tab => if m == 0 {
            Some(Action::InsertChild)
        } else {
            None
        },
        Key::Char(c) => if m == 0 {
            plain_char(c)
        } else if m == SHIFT {
            shifted_char(c)
        } else if m == CONTROL {
            control_char(c)
        } else {
            None
        },
        _ => None,
    }
}

/// The normal-mode action of a character typed without modifiers.
fn plain_char(c: char) -> (a: Option<Action>)
    ensures
        a == normal_binding(KeyPress { code: Key::Char(c), modifiers: 0 }),
{
    match c {
        'q' => Some(Action::Quit),
        'h' => Some(Action::GoLeft),
        'j' => Some(Action::GoDown),
        'k' => Some(Action::GoUp),
        'l' => Some(Action::GoRight),
        'o' => Some(Action::InsertSibling),
        ' ' => Some(Action::ToggleCollapse),
        'd' => Some(Action::DeleteNode),
        'e' | 'i' | 'a' => Some(Action::EditNodeAppend),
        'c' => Some(Action::CenterActiveNode),
        'f' => Some(Action::Focus),
        'v' => Some(Action::CollapseAll),
        'b' => Some(Action::ExpandAll),
        'r' => Some(Action::CollapseOtherBranches),
        '1' => Some(Action::CollapseToLevel(1)),
        '2' => Some(Action::CollapseToLevel(2)),
        '3' => Some(Action::CollapseToLevel(3)),
        '4' => Some(Action::CollapseToLevel(4)),
        '5' => Some(Action::CollapseToLevel(5)),
        'g' => Some(Action::GoToTop),
        'm' | '~' => Some(Action::GoToRoot),
        's' => Some(Action::Save),
        'x' => Some(Action::ExportHtml),
        'y' => Some(Action::YankNode),
        'p' => Some(Action::PasteAsChildren),
        'u' => Some(Action::Undo),
        '/' => Some(Action::Search),
        'n' => Some(Action::NextSearchResult),
        't' => Some(Action::ToggleSymbol),
        '#' => Some(Action::ToggleNumbers),
        'w' => Some(Action::IncreaseTextWidth),
        'z' => Some(Action::DecreaseLineSpacing),
        '=' => Some(Action::IncreasePositiveRank),
        '+' => Some(Action::DecreasePositiveRank),
        '-' => Some(Action::IncreaseNegativeRank),
        '?' => Some(Action::ShowHelp),
        _ => None,
    }
}

/// The normal-mode action of a character typed with Shift alone.
fn shifted_char(c: char) -> (a: Option<Action>)
    ensures
        a == normal_binding(KeyPress { code: Key::Char(c), modifiers: SHIFT }),
{
    match c {
        'Q' => Some(Action::ForceQuit),
        'O' => Some(Action::InsertChild),
        'D' => Some(Action::DeleteChildren),
        'E' | 'I' | 'A' => Some(Action::EditNodeReplace),
        'C' => Some(Action::ToggleCenterLock),
        'F' => Some(Action::ToggleFocusLock),
        'V' => Some(Action::CollapseChildren),
        'G' => Some(Action::GoToBottom),
        'S' => Some(Action::SaveAs),
        'X' => Some(Action::ExportText),
        'Y' => Some(Action::YankChildren),
        'P' => Some(Action::PasteAsSiblings),
        'J' => Some(Action::MoveNodeDown),
        'K' => Some(Action::MoveNodeUp),
        'N' => Some(Action::PreviousSearchResult),
        'T' => Some(Action::SortSiblings),
        'W' => Some(Action::DecreaseTextWidth),
        'Z' => Some(Action::IncreaseLineSpacing),
        'H' => Some(Action::ToggleHide),
        '_' => Some(Action::DecreaseNegativeRank),
        _ => None,
    }
}

/// The normal-mode action of a character typed with Control alone.
fn control_char(c: char) -> (a: Option<Action>)
    ensures
        a == normal_binding(KeyPress { code: Key::Char(c), modifiers: CONTROL }),
{
    match c {
        'c' => Some(Action::Quit),
        'r' => Some(Action::Redo),
        'f' => Some(Action::Search),
        'h' => Some(Action::ToggleShowHidden),
        _ => None,
    }
}

/// The key map of editing mode, read from the top like [`normal_binding`].
pub open spec fn editing_binding(k: KeyPress) -> Option<Action> {
    match (k.code, k.modifiers) {
        (Key::Esc, _) => Some(Action::CancelEdit),
        (Key::Enter, _) => Some(Action::ConfirmEdit),
        (Key::Char(c), 0) | (Key::Char(c), SHIFT) => Some(Action::TypeChar(c)),
        (Key::Backspace, 0) => Some(Action::Backspace),
        (Key::Backspace, CONTROL) => Some(Action::DeleteWordBackward),
        (Key::Backspace, ALT) => Some(Action::DeleteWordBackward),
        (Key::Char('w'), CONTROL) => Some(Action::DeleteWordBackward),
        (Key::Delete, 0) => Some(Action::Delete),
        (Key::Delete, CONTROL) => Some(Action::DeleteWordForward),
        (Key::Char('d'), ALT) => Some(Action::DeleteWordForward),
        (Key::Char('k'), CONTROL) => Some(Action::DeleteToEnd),
        (Key::Char('u'), CONTROL) => Some(Action::DeleteToStart),
        (Key::Left, 0) => Some(Action::MoveCursorLeft),
        (Key::Right, 0) => Some(Action::MoveCursorRight),
        (Key::Left, CONTROL) => Some(Action::MoveCursorWordLeft),
        (Key::Right, CONTROL) => Some(Action::MoveCursorWordRight),
        (Key::Left, ALT) => Some(Action::MoveCursorWordLeft),
        (Key::Right, ALT) => Some(Action::MoveCursorWordRight),
        (Key::Char('b'), ALT) => Some(Action::MoveCursorWordLeft),
        (Key::Char('f'), ALT) => Some(Action::MoveCursorWordRight),
        (Key::Home, _) => Some(Action::MoveCursorHome),
        (Key::End, _) => Some(Action::MoveCursorEnd),
        (Key::Char('a'), CONTROL) => Some(Action::MoveCursorHome),
        (Key::Char('e'), CONTROL) => Some(Action::MoveCursorEnd),
        (Key::Char('v'), CONTROL) => Some(Action::PasteAtCursor),
        _ => None,
    }
}

/// The action of a key press in editing mode (see [`editing_binding`]).
pub fn handle_editing_mode(key: KeyPress) -> (a: Option<Action>)
    ensures
        a == editing_binding(key),
{
    let m = key.modifiers;
    match key.code {
        Key::Esc => Some(Action::CancelEdit),
        Key::Enter => Some(Action::ConfirmEdit),
        Key::Home => Some(Action::MoveCursorHome),
        Key::End => Some(Action::MoveCursorEnd),
        Key::Char(c) => if m == 0 || m == SHIFT {
            Some(Action::TypeChar(c))
        } else if m == CONTROL {
            match c {
                'w' => Some(Action::DeleteWordBackward),
                'k' => Some(Action::DeleteToEnd),
                'u' => Some(Action::DeleteToStart),
                'a' => Some(Action::MoveCursorHome),
                'e' => Some(Action::MoveCursorEnd),
                'v' => Some(Action::PasteAtCursor),
                _ => None,
            }
        } else if m == ALT {
            match c {
                'd' => Some(Action::DeleteWordForward),
                'b' => Some(Action::MoveCursorWordLeft),
                'f' => Some(Action::MoveCursorWordRight),
                _ => None,
            }
        } else {
            None
        },
        Key::Backspace => if m == 0 {
            Some(Action::Backspace)
        } else if m == CONTROL || m == ALT {
            Some(Action::DeleteWordBackward)
        } else {
            None
        },
        Key::Delete => if m == 0 {
            Some(Action::Delete)
        } else if m == CONTROL {
            Some(Action::DeleteWordForward)
        } else {
            None
        },
        Key::Left => if m == 0 {
            Some(Action::MoveCursorLeft)
        } else if m == CONTROL || m == ALT {
            Some(Action::MoveCursorWordLeft)
        } else {
            None
        },
        Key::Right => if m == 0 {
            Some(Action::MoveCursorRight)
        } else if m == CONTROL || m == ALT {
            Some(Action::MoveCursorWordRight)
        } else {
            None
        },
        _ => None,
    }
}

/// The key map of search mode: Esc cancels, Enter runs the search, a
/// character (whatever the modifiers) extends the query, Backspace shortens
/// it.
pub open spec fn search_binding(k: KeyPress) -> Option<Action> {
    match k.code {
        Key::Esc => Some(Action::CancelSearch),
        Key::Enter => Some(Action::ConfirmSearch),
        Key::Char(c) => Some(Action::TypeSearchChar(c)),
        Key::Backspace => Some(Action::BackspaceSearch),
        _ => None,
    }
}

/// The action of a key press in search mode (see [`search_binding`]).
pub fn handle_search_mode(key: KeyPress) -> (a: Option<Action>)
    ensures
        a == search_binding(key),
{
    match key.code {
        Key::Esc => Some(Action::CancelSearch),
        Key::Enter => Some(Action::ConfirmSearch),
        Key::Char(c) => Some(Action::TypeSearchChar(c)),
        Key::Backspace => Some(Action::BackspaceSearch),
        _ => None,
    }
}

/// The key map of the help screen: Esc, 'q' and '?' close it.
pub open spec fn help_binding(k: KeyPress) -> Option<Action> {
    match k.code {
        Key::Esc | Key::Char('q') | Key::Char('?') => Some(Action::CloseHelp),
        _ => None,
    }
}

/// The action of a key press on the help screen (see [`help_binding`]).
pub fn handle_help_mode(key: KeyPress) -> (a: Option<Action>)
    ensures
        a == help_binding(key),
{
    match key.code {
        Key::Esc | Key::Char('q') | Key::Char('?') => Some(Action::CloseHelp),
        _ => None,
    }
}

/// The action of a key press in the current mode.
pub fn handle_key_event(app: &AppState, key: KeyPress) -> (a: Option<Action>)
    ensures
        a == match app.mode {
            AppMode::Normal => normal_binding(key),
            AppMode::Editing { .. } => editing_binding(key),
            AppMode::Search { .. } => search_binding(key),
            AppMode::Help => help_binding(key),
        },
{
    match &app.mode {
        AppMode::Normal => handle_normal_mode(key),
        AppMode::Editing { .. } => handle_editing_mode(key),
        AppMode::Search { .. } => handle_search_mode(key),
        AppMode::Help => handle_help_mode(key),
    }
}

} // verus!
