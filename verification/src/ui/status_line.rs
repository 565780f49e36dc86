//! The status line's text, by mode.
use crate::app::{AppMode, AppState};
use crate::text::{
    byte_len, char_index, chars_of, copy_range, decimal, is_boundary, locate, owned, push_all, push_decimal,
    push_str, str_byte_len, string_from_chars,
};
use crate::tree::{arena_len, arena_slots};
use vstd::prelude::*;

verus! {

/// Builds the status line.
pub struct StatusLineRenderer;

/// `a - b`, or 0 when `b` is larger (`saturating_sub`).
pub open spec fn sat_sub(a: int, b: int) -> int {
    if a > b {
        a - b
    } else {
        0
    }
}

/// The columns left for the edited text: the width less the prefix "Edit: "
/// and one more column.
pub open spec fn edit_room(width: int) -> int {
    sat_sub(width, 7)
}

/// The byte where the shown part of the edited text starts: 0, unless the
/// cursor is within ten columns of the right edge, then half the room
/// before the cursor.
pub open spec fn edit_start(cursor: int, room: int) -> int {
    if cursor > sat_sub(room, 10) {
        sat_sub(cursor, room / 2)
    } else {
        0
    }
}

/// The characters of `b` between the byte offsets `x` and `y`.
pub open spec fn bytes_range(b: Seq<char>, x: int, y: int) -> Seq<char> {
    b.subrange(char_index(b, x), char_index(b, y))
}

/// The part of the edited text that is shown: all of it when it fits, else
/// the room's worth of bytes from the start (see [`edit_start`]).
pub open spec fn edit_visible(b: Seq<char>, cursor: int, width: int) -> Seq<char> {
    let room = edit_room(width);
    let start = edit_start(cursor, room);
    if byte_len(b) > room {
        let end = if start + room < byte_len(b) {
            start + room
        } else {
            byte_len(b) as int
        };
        bytes_range(b, start, end)
    } else {
        b
    }
}

/// The edited text may be cut where the status line cuts it: at the start
/// and the end of the shown part, and at the cursor within it.
pub open spec fn edit_cuts_ok(b: Seq<char>, cursor: int, width: int) -> bool {
    let room = edit_room(width);
    let start = edit_start(cursor, room);
    let v = edit_visible(b, cursor, width);
    let vc = sat_sub(cursor, start);
    &&& byte_len(b) > room ==> {
        let end = if start + room < byte_len(b) {
            start + room
        } else {
            byte_len(b) as int
        };
        &&& is_boundary(b, start)
        &&& is_boundary(b, end)
        &&& start <= end
        &&& start + room <= usize::MAX
    }
    &&& vc <= byte_len(v) ==> is_boundary(v, vc)
}

/// The status line while editing: "Edit: ", the shown part of the text with
/// the cursor mark ('▌') at the cursor, or after the text when the cursor
/// lies beyond it.
pub open spec fn edit_line(b: Seq<char>, cursor: int, width: int) -> Seq<char> {
    let v = edit_visible(b, cursor, width);
    let vc = sat_sub(cursor, edit_start(cursor, edit_room(width)));
    "Edit: "@ + if vc <= byte_len(v) {
        v.take(char_index(v, vc)) + seq!['▌'] + v.skip(char_index(v, vc))
    } else {
        v.push('▌')
    }
}

/// "h-m-m | `n` nodes".
pub open spec fn count_line(n: nat) -> Seq<char> {
    "h-m-m | "@ + decimal(n) + " nodes"@
}

impl StatusLineRenderer {
    /// The status line in normal mode: the message, if there is one, else
    /// the number of node slots of the map.
    pub fn render_normal_mode(app: &AppState) -> (content: String)
        ensures
            app.message matches Some(m) ==> content@ == m@,
            app.message is None ==> content@ == count_line(arena_slots(app.tree)),
    {
        match &app.message {
            Some(m) => m.clone(),
            None => {
                let mut v: Vec<char> = Vec::new();
                push_str(&mut v, "h-m-m | ");
                push_decimal(&mut v, arena_len(&app.tree));
                push_str(&mut v, " nodes");
                string_from_chars(&v)
            },
        }
    }

    /// The status line while editing (see [`edit_line`]).
    pub fn render_edit_mode(buffer: &str, cursor_pos: usize, width: u16) -> (content: String)
        requires
            edit_cuts_ok(buffer@, cursor_pos as int, width as int),
        ensures
            content@ == edit_line(buffer@, cursor_pos as int, width as int),
    {
        let room: usize = if width > 7 {
            (width - 7) as usize
        } else {
            0
        };
        let start: usize = if cursor_pos > (if room > 10 {
            room - 10
        } else {
            0
        }) {
            if cursor_pos > room / 2 {
                cursor_pos - room / 2
            } else {
                0
            }
        } else {
            0
        };
        assert(room == edit_room(width as int));
        assert(start == edit_start(cursor_pos as int, room as int));
        let visible = visible_part(buffer, cursor_pos, width, room, start);
        let vc: usize = if cursor_pos > start {
            cursor_pos - start
        } else {
            0
        };
        let out = with_mark(&visible, vc);
        string_from_chars(&out)
    }

    /// The status line while searching: "Search: " and the query.
    pub fn render_search_mode(query: &str) -> (content: String)
        ensures
            content@ == "Search: "@ + query@,
    {
        let mut v: Vec<char> = Vec::new();
        push_str(&mut v, "Search: ");
        push_str(&mut v, query);
        string_from_chars(&v)
    }

    /// The status line on the help screen.
    pub fn render_help_mode() -> (content: String)
        ensures
            content@ == "Press ESC or q to close help"@,
    {
        owned("Press ESC or q to close help")
    }

    /// The status line for the current mode, `width` columns wide.
    pub fn content(app: &AppState, width: u16) -> (content: String)
        requires
            app.mode matches AppMode::Editing { buffer, cursor_pos } ==> edit_cuts_ok(
                buffer@,
                cursor_pos as int,
                width as int,
            ),
        ensures
            app.mode is Normal ==> content@ == (match app.message {
                Some(m) => m@,
                None => count_line(arena_slots(app.tree)),
            }),
            app.mode matches AppMode::Editing { buffer, cursor_pos } ==> content@ == edit_line(
                buffer@,
                cursor_pos as int,
                width as int,
            ),
            app.mode matches AppMode::Search { query } ==> content@ == "Search: "@ + query@,
            app.mode is Help ==> content@ == "Press ESC or q to close help"@,
    {
        match &app.mode {
            AppMode::Normal => Self::render_normal_mode(app),
            AppMode::Editing { buffer, cursor_pos } => Self::render_edit_mode(buffer.as_str(), *cursor_pos, width),
            AppMode::Search { query } => Self::render_search_mode(query.as_str()),
            AppMode::Help => Self::render_help_mode(),
        }
    }
}

/// The shown part of the edited text.
fn visible_part(buffer: &str, cursor_pos: usize, width: u16, room: usize, start: usize) -> (v: Vec<char>)
    requires
        room == edit_room(width as int),
        start == edit_start(cursor_pos as int, room as int),
        edit_cuts_ok(buffer@, cursor_pos as int, width as int),
    ensures
        v@ == edit_visible(buffer@, cursor_pos as int, width as int),
{
    let b = chars_of(buffer);
    let len = str_byte_len(buffer);
    if len > room {
        let end = if start + room < len {
            start + room
        } else {
            len
        };
        let i = locate(&b, start).unwrap();
        let j = locate(&b, end).unwrap();
        proof {
            if j < i {
                crate::text::lemma_byte_len_mono(b@, j as int, i as int);
            }
        }
        copy_range(&b, i, j)
    } else {
        b
    }
}

/// "Edit: " and `v` with the cursor mark at byte `vc` (after `v` when `vc`
/// lies beyond it).
fn with_mark(v: &Vec<char>, vc: usize) -> (out: Vec<char>)
    requires
        vc <= byte_len(v@) ==> is_boundary(v@, vc as int),
    ensures
        out@ == "Edit: "@ + if vc <= byte_len(v@) {
            v@.take(char_index(v@, vc as int)) + seq!['▌'] + v@.skip(char_index(v@, vc as int))
        } else {
            v@.push('▌')
        },
{
    let vlen = str_byte_len(string_from_chars(v).as_str());
    let mut out: Vec<char> = Vec::new();
    push_str(&mut out, "Edit: ");
    if vc <= vlen {
        let k = locate(v, vc).unwrap();
        let n = v.len();
        push_all(&mut out, &copy_range(v, 0, k));
        out.push('▌');
        push_all(&mut out, &copy_range(v, k, n));
        assert(v@.take(k as int) =~= v@.subrange(0, k as int));
        assert(v@.skip(k as int) =~= v@.subrange(k as int, n as int));
    } else {
        push_all(&mut out, v);
        out.push('▌');
    }
    assert(out@ =~= "Edit: "@ + if vc <= byte_len(v@) {
        v@.take(char_index(v@, vc as int)) + seq!['▌'] + v@.skip(char_index(v@, vc as int))
    } else {
        v@.push('▌')
    });
    out
}

/// Whether the status line can cut the edited text where it needs to (see
/// [`edit_cuts_ok`]).
pub fn edit_cuts_fine(buffer: &str, cursor_pos: usize, width: u16) -> (ok: bool)
    ensures
        ok == edit_cuts_ok(buffer@, cursor_pos as int, width as int),
{
    let room: usize = if width > 7 {
        (width - 7) as usize
    } else {
        0
    };
    let start: usize = if cursor_pos > (if room > 10 {
        room - 10
    } else {
        0
    }) {
        if cursor_pos > room / 2 {
            cursor_pos - room / 2
        } else {
            0
        }
    } else {
        0
    };
    assert(room == edit_room(width as int));
    assert(start == edit_start(cursor_pos as int, room as int));
    let b = chars_of(buffer);
    let len = str_byte_len(buffer);
    let v: Vec<char> = if len > room {
        if start > usize::MAX - room {
            return false;
        }
        let end = if start + room < len {
            start + room
        } else {
            len
        };
        if start > end {
            return false;
        }
        match (locate(&b, start), locate(&b, end)) {
            (Some(i), Some(j)) => {
                proof {
                    if j < i {
                        crate::text::lemma_byte_len_mono(b@, j as int, i as int);
                    }
                }
                copy_range(&b, i, j)
            },
            _ => {
                return false;
            },
        }
    } else {
        b
    };
    assert(v@ == edit_visible(buffer@, cursor_pos as int, width as int));
    let vc: usize = if cursor_pos > start {
        cursor_pos - start
    } else {
        0
    };
    let vlen = str_byte_len(string_from_chars(&v).as_str());
    if vc <= vlen {
        locate(&v, vc).is_some()
    } else {
        true
    }
}

impl StatusLineRenderer {
    /// Whether [`StatusLineRenderer::content`] can run on `app` at `width`.
    pub fn can_render(app: &AppState, width: u16) -> (ok: bool)
        ensures
            ok == (app.mode matches AppMode::Editing { buffer, cursor_pos } ==> edit_cuts_ok(
                buffer@,
                cursor_pos as int,
                width as int,
            )),
    {
        match &app.mode {
            AppMode::Editing { buffer, cursor_pos } => edit_cuts_fine(buffer.as_str(), *cursor_pos, width),
            _ => true,
        }
    }
}

/// The look of the status line; the front end gives each its colours.
#[derive(Debug, Clone, Copy, PartialEq, Eq, Structural)]
pub enum StatusLook {
    /// Normal mode showing a message.
    Message,
    /// Normal mode showing the node count.
    Quiet,
    /// Editing, searching or help.
    Prompt,
}

impl StatusLineRenderer {
    /// The look of the status line: in normal mode a message stands out
    /// and the node count does not; the other modes share one look.
    pub fn look(app: &AppState) -> (l: StatusLook)
        ensures
            l == (if app.mode is Normal {
                if app.message is Some {
                    StatusLook::Message
                } else {
                    StatusLook::Quiet
                }
            } else {
                StatusLook::Prompt
            }),
    {
        match &app.mode {
            AppMode::Normal => {
                if app.message.is_some() {
                    StatusLook::Message
                } else {
                    StatusLook::Quiet
                }
            },
            _ => StatusLook::Prompt,
        }
    }
}

} // verus!
