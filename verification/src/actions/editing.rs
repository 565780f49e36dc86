//! Editing a node's title in a line buffer whose cursor is a byte offset.
use crate::app::{history_pushed, AppMode, AppState};
use crate::model::Node;
use crate::text::{byte_len, char_index, chars_of, copy_range, is_boundary, lemma_char_index, locate, str_byte_len, string_from_chars};
use crate::tree::{arena_get_data, arena_nodes, arena_ok, arena_set_data, title_of, TreeView};
use indextree::{Arena, NodeId};
use vstd::prelude::*;

verus! {

/// Enters editing mode on the active node: the buffer holds the node's title
/// (empty with `replace`), the cursor stands at its end.
pub fn start_editing(app: &mut AppState, replace: bool)
    requires
        old(app).active_ok(),
    ensures
        old(app).active_node_id is None ==> *final(app) == *old(app),
        old(app).active_node_id matches Some(a) ==> {
            &&& final(app).mode matches AppMode::Editing { buffer, cursor_pos } && buffer@ == (
            if replace {
                Seq::<char>::empty()
            } else {
                title_of(old(app).tree_view(), a)
            }) && cursor_pos == byte_len(buffer@)
            &&& *final(app) == (AppState { mode: final(app).mode, ..*old(app) })
        },
{
    if let Some(active_id) = app.active_node_id {
        let node = arena_get_data(&app.tree, active_id).unwrap();
        let buffer = if replace {
            String::new()
        } else {
            node.title.clone()
        };
        let cursor_pos = str_byte_len(buffer.as_str());
        app.mode = AppMode::Editing { buffer, cursor_pos };
    }
}

// ---------------------------------------------------------------------------
// The editing state
// ---------------------------------------------------------------------------

/// The buffer of an editing mode (empty in other modes).
pub open spec fn edit_buffer(mode: AppMode) -> Seq<char> {
    match mode {
        AppMode::Editing { buffer, .. } => buffer@,
        _ => Seq::empty(),
    }
}

/// The cursor of an editing mode, a byte offset into the buffer (0 in other
/// modes).
pub open spec fn edit_cursor(mode: AppMode) -> int {
    match mode {
        AppMode::Editing { cursor_pos, .. } => cursor_pos as int,
        _ => 0,
    }
}

/// `mode` edits `buffer` with the cursor at byte `cursor`.
pub open spec fn is_editing(mode: AppMode, buffer: Seq<char>, cursor: int) -> bool {
    mode matches AppMode::Editing { buffer: b, cursor_pos: c } && b@ == buffer && c == cursor
}

/// `b` is `a` with another mode (and everything else the same).
pub open spec fn mode_changed(a: AppState, b: AppState) -> bool {
    b == (AppState { mode: b.mode, ..a })
}

/// Whether the mode is editing.
fn in_editing(app: &AppState) -> (b: bool)
    ensures
        b == app.mode is Editing,
{
    match app.mode {
        AppMode::Editing { .. } => true,
        _ => false,
    }
}

/// Replaces the buffer and the cursor of an editing mode.
fn set_edit(app: &mut AppState, buffer: Vec<char>, cursor: usize)
    requires
        old(app).mode is Editing,
    ensures
        is_editing(final(app).mode, buffer@, cursor as int),
        mode_changed(*old(app), *final(app)),
{
    app.mode = AppMode::Editing { buffer: string_from_chars(&buffer), cursor_pos: cursor };
}

/// The characters of the buffer, its length in bytes and the cursor.
fn edit_parts(app: &AppState) -> (r: (Vec<char>, usize, usize))
    requires
        app.mode is Editing,
    ensures
        r.0@ == edit_buffer(app.mode),
        r.1 == byte_len(edit_buffer(app.mode)),
        r.1 <= isize::MAX,
        r.2 == edit_cursor(app.mode),
{
    match &app.mode {
        AppMode::Editing { buffer, cursor_pos } => (
            chars_of(buffer.as_str()),
            str_byte_len(buffer.as_str()),
            *cursor_pos,
        ),
        _ => (Vec::new(), 0, 0),
    }
}

/// `v` with `c` inserted at index `k`.
fn insert_at(v: &Vec<char>, k: usize, c: char) -> (r: Vec<char>)
    requires
        k <= v@.len(),
    ensures
        r@ == v@.insert(k as int, c),
{
    let mut r = copy_range(v, 0, k);
    r.push(c);
    let rest = copy_range(v, k, v.len());
    let mut i: usize = 0;
    let ghost front = r@;
    while i < rest.len()
        invariant
            0 <= i <= rest@.len(),
            r@ == front + rest@.take(i as int),
        decreases rest@.len() - i,
    {
        r.push(rest[i]);
        i = i + 1;
        assert(r@ =~= front + rest@.take(i as int));
    }
    assert(r@ =~= v@.insert(k as int, c));
    r
}

/// `a` followed by `b`.
fn concat(a: &Vec<char>, b: &Vec<char>) -> (r: Vec<char>)
    ensures
        r@ == a@ + b@,
{
    let mut r = copy_range(a, 0, a.len());
    crate::text::push_all(&mut r, b);
    r
}

/// Inserts `c` at the cursor, which moves on by one byte. (The cursor must
/// stand on a character boundary.)
pub fn type_char(app: &mut AppState, c: char)
    requires
        old(app).mode is Editing ==> is_boundary(edit_buffer(old(app).mode), edit_cursor(old(app).mode)),
    ensures
        old(app).mode is Editing ==> is_editing(
            final(app).mode,
            edit_buffer(old(app).mode).insert(
                char_index(edit_buffer(old(app).mode), edit_cursor(old(app).mode)),
                c,
            ),
            edit_cursor(old(app).mode) + 1,
        ),
        !(old(app).mode is Editing) ==> final(app).mode == old(app).mode,
        mode_changed(*old(app), *final(app)),
{
    if in_editing(app) {
        let (v, len, cur) = edit_parts(app);
        let k = locate(&v, cur).unwrap();
        proof {
            lemma_char_index(v@, k as int);
        }
        let nv = insert_at(&v, k, c);
        set_edit(app, nv, cur + 1);
    }
}

/// Deletes the character before the cursor, which moves back one byte; the
/// character starting there goes. (That byte must start a character.)
pub fn backspace(app: &mut AppState)
    requires
        old(app).mode is Editing && edit_cursor(old(app).mode) > 0 ==> is_boundary(
            edit_buffer(old(app).mode),
            edit_cursor(old(app).mode) - 1,
        ) && edit_cursor(old(app).mode) - 1 < byte_len(edit_buffer(old(app).mode)),
    ensures
        old(app).mode is Editing && edit_cursor(old(app).mode) > 0 ==> is_editing(
            final(app).mode,
            edit_buffer(old(app).mode).remove(
                char_index(edit_buffer(old(app).mode), edit_cursor(old(app).mode) - 1),
            ),
            edit_cursor(old(app).mode) - 1,
        ),
        !(old(app).mode is Editing && edit_cursor(old(app).mode) > 0) ==> *final(app) == *old(app),
        mode_changed(*old(app), *final(app)),
{
    if in_editing(app) {
        let (v, len, cur) = edit_parts(app);
        if cur > 0 {
            let k = locate(&v, cur - 1).unwrap();
            proof {
                if k == v@.len() {
                    assert(v@.take(k as int) =~= v@);
                }
            }
            let nv = remove_at(&v, k);
            set_edit(app, nv, cur - 1);
        }
    }
}

/// `v` without the character at index `k`.
fn remove_at(v: &Vec<char>, k: usize) -> (r: Vec<char>)
    requires
        k < v@.len(),
    ensures
        r@ == v@.remove(k as int),
{
    let n = v.len();
    let a = copy_range(v, 0, k);
    let b = copy_range(v, k + 1, n);
    let r = concat(&a, &b);
    assert(r@ =~= v@.remove(k as int));
    r
}

/// Deletes the character at the cursor, if the cursor is before the end of
/// the buffer. (The cursor must then stand on a character boundary.)
pub fn delete_char(app: &mut AppState)
    requires
        old(app).mode is Editing && edit_cursor(old(app).mode) < byte_len(edit_buffer(old(app).mode))
            ==> is_boundary(edit_buffer(old(app).mode), edit_cursor(old(app).mode)),
    ensures
        old(app).mode is Editing && edit_cursor(old(app).mode) < byte_len(edit_buffer(old(app).mode))
            ==> is_editing(
            final(app).mode,
            edit_buffer(old(app).mode).remove(
                char_index(edit_buffer(old(app).mode), edit_cursor(old(app).mode)),
            ),
            edit_cursor(old(app).mode),
        ),
        !(old(app).mode is Editing && edit_cursor(old(app).mode) < byte_len(
            edit_buffer(old(app).mode),
        )) ==> *final(app) == *old(app),
        mode_changed(*old(app), *final(app)),
{
    if in_editing(app) {
        let (v, len, cur) = edit_parts(app);
        if cur < len {
            let k = locate(&v, cur).unwrap();
            proof {
                if k == v@.len() {
                    assert(v@.take(k as int) =~= v@);
                }
            }
            let nv = remove_at(&v, k);
            set_edit(app, nv, cur);
        }
    }
}

/// Moves the cursor to byte `cursor`, in editing mode.
fn set_cursor(app: &mut AppState, cursor: usize)
    requires
        old(app).mode is Editing,
    ensures
        is_editing(final(app).mode, edit_buffer(old(app).mode), cursor as int),
        mode_changed(*old(app), *final(app)),
{
    if let AppMode::Editing { cursor_pos, .. } = &mut app.mode {
        *cursor_pos = cursor;
    }
}

/// Moves the cursor back one byte, unless it is at the start.
pub fn move_cursor_left(app: &mut AppState)
    ensures
        old(app).mode is Editing ==> is_editing(
            final(app).mode,
            edit_buffer(old(app).mode),
            if edit_cursor(old(app).mode) > 0 {
                edit_cursor(old(app).mode) - 1
            } else {
                0
            },
        ),
        !(old(app).mode is Editing) ==> *final(app) == *old(app),
        mode_changed(*old(app), *final(app)),
{
    if in_editing(app) {
        let (v, len, cur) = edit_parts(app);
        if cur > 0 {
            set_cursor(app, cur - 1);
        }
    }
}

/// Moves the cursor on one byte, unless it is at the end of the buffer.
pub fn move_cursor_right(app: &mut AppState)
    ensures
        old(app).mode is Editing ==> is_editing(
            final(app).mode,
            edit_buffer(old(app).mode),
            if edit_cursor(old(app).mode) < byte_len(edit_buffer(old(app).mode)) {
                edit_cursor(old(app).mode) + 1
            } else {
                edit_cursor(old(app).mode)
            },
        ),
        !(old(app).mode is Editing) ==> *final(app) == *old(app),
        mode_changed(*old(app), *final(app)),
{
    if in_editing(app) {
        let (v, len, cur) = edit_parts(app);
        if cur < len {
            set_cursor(app, cur + 1);
        }
    }
}

/// Moves the cursor to the start of the buffer.
pub fn move_cursor_home(app: &mut AppState)
    ensures
        old(app).mode is Editing ==> is_editing(final(app).mode, edit_buffer(old(app).mode), 0),
        !(old(app).mode is Editing) ==> *final(app) == *old(app),
        mode_changed(*old(app), *final(app)),
{
    if in_editing(app) {
        set_cursor(app, 0);
    }
}

/// Moves the cursor to the end of the buffer.
pub fn move_cursor_end(app: &mut AppState)
    ensures
        old(app).mode is Editing ==> is_editing(
            final(app).mode,
            edit_buffer(old(app).mode),
            byte_len(edit_buffer(old(app).mode)) as int,
        ),
        !(old(app).mode is Editing) ==> *final(app) == *old(app),
        mode_changed(*old(app), *final(app)),
{
    if in_editing(app) {
        let (v, len, cur) = edit_parts(app);
        set_cursor(app, len);
    }
}

// ---------------------------------------------------------------------------
// Words
// ---------------------------------------------------------------------------

/// The character at index `i` of `s` is a space (none is, out of range).
pub open spec fn space_at(s: Seq<char>, i: int) -> bool {
    0 <= i < s.len() && s[i] == ' '
}

/// From `c`, the position reached by moving back over characters that are
/// spaces (`sp`) or that are not.
pub open spec fn back_over(s: Seq<char>, c: int, sp: bool) -> int
    decreases c,
{
    if c > 0 && space_at(s, c - 1) == sp {
        back_over(s, c - 1, sp)
    } else {
        c
    }
}

/// From `c`, the position reached by moving on, up to `end`, over characters
/// that are spaces (`sp`) or that are not.
pub open spec fn fwd_over(s: Seq<char>, c: int, end: int, sp: bool) -> int
    decreases end - c,
{
    if c < end && space_at(s, c) == sp {
        fwd_over(s, c + 1, end, sp)
    } else {
        c
    }
}

/// The start of the word before `c`: back over spaces, then over the word.
pub open spec fn word_left(s: Seq<char>, c: int) -> int {
    back_over(s, back_over(s, c, true), false)
}

/// The start of the word after `c` (up to `end`): on over the word, then
/// over the spaces.
pub open spec fn word_right(s: Seq<char>, c: int, end: int) -> int {
    fwd_over(s, fwd_over(s, c, end, false), end, true)
}

fn is_space_at(v: &Vec<char>, i: usize) -> (b: bool)
    ensures
        b == space_at(v@, i as int),
{
    i < v.len() && v[i] == ' '
}

fn back_over_exec(v: &Vec<char>, c: usize, sp: bool) -> (r: usize)
    ensures
        r == back_over(v@, c as int, sp),
        r <= c,
{
    let mut i = c;
    while i > 0 && is_space_at(v, i - 1) == sp
        invariant
            i <= c,
            back_over(v@, i as int, sp) == back_over(v@, c as int, sp),
        decreases i,
    {
        i = i - 1;
    }
    i
}

fn fwd_over_exec(v: &Vec<char>, c: usize, end: usize, sp: bool) -> (r: usize)
    ensures
        r == fwd_over(v@, c as int, end as int, sp),
        c <= end ==> c <= r <= end,
        c > end ==> r == c,
{
    let mut i = c;
    while i < end && is_space_at(v, i) == sp
        invariant
            c <= end ==> c <= i <= end,
            c > end ==> i == c,
            fwd_over(v@, i as int, end as int, sp) == fwd_over(v@, c as int, end as int, sp),
        decreases end - i,
    {
        i = i + 1;
    }
    i
}

/// Moves the cursor to the start of the previous word (the cursor is taken
/// as a character index here, as the buffer's characters are counted).
pub fn move_cursor_word_left(app: &mut AppState)
    ensures
        old(app).mode is Editing ==> is_editing(
            final(app).mode,
            edit_buffer(old(app).mode),
            word_left(edit_buffer(old(app).mode), edit_cursor(old(app).mode)),
        ),
        !(old(app).mode is Editing) ==> *final(app) == *old(app),
        mode_changed(*old(app), *final(app)),
{
    if in_editing(app) {
        let (v, len, cur) = edit_parts(app);
        if cur == 0 {
            proof {
                assert(is_editing(app.mode, v@, 0));
            }
            return;
        }
        let a = back_over_exec(&v, cur, true);
        let b = back_over_exec(&v, a, false);
        set_cursor(app, b);
    }
}

/// Moves the cursor to the start of the next word.
pub fn move_cursor_word_right(app: &mut AppState)
    ensures
        old(app).mode is Editing ==> is_editing(
            final(app).mode,
            edit_buffer(old(app).mode),
            word_right(
                edit_buffer(old(app).mode),
                edit_cursor(old(app).mode),
                byte_len(edit_buffer(old(app).mode)) as int,
            ),
        ),
        !(old(app).mode is Editing) ==> *final(app) == *old(app),
        mode_changed(*old(app), *final(app)),
{
    if in_editing(app) {
        let (v, len, cur) = edit_parts(app);
        if cur >= len {
            proof {
                assert(is_editing(app.mode, v@, cur as int));
            }
            return;
        }
        let a = fwd_over_exec(&v, cur, len, false);
        let b = fwd_over_exec(&v, a, len, true);
        set_cursor(app, b);
    }
}

/// The characters of `s` outside the bytes `a .. b`.
pub open spec fn cut(s: Seq<char>, a: int, b: int) -> Seq<char> {
    s.take(char_index(s, a)) + s.skip(char_index(s, b))
}

/// `v` without the characters between byte offsets `a` and `b`.
fn cut_exec(v: &Vec<char>, a: usize, b: usize) -> (r: Vec<char>)
    requires
        is_boundary(v@, a as int),
        is_boundary(v@, b as int),
        a <= b,
    ensures
        r@ == cut(v@, a as int, b as int),
{
    let i = locate(v, a).unwrap();
    let j = locate(v, b).unwrap();
    proof {
        if j < i {
            crate::text::lemma_byte_len_mono(v@, j as int, i as int);
        }
    }
    let n = v.len();
    let x = copy_range(v, 0, i);
    let y = copy_range(v, j, n);
    let r = concat(&x, &y);
    assert(r@ =~= cut(v@, a as int, b as int));
    r
}

/// Deletes from the start of the previous word up to the cursor, which
/// moves there. (Both ends must be character boundaries.)
pub fn delete_word_backward(app: &mut AppState)
    requires
        old(app).mode is Editing && edit_cursor(old(app).mode) > 0 ==> {
            &&& is_boundary(edit_buffer(old(app).mode), edit_cursor(old(app).mode))
            &&& is_boundary(
                edit_buffer(old(app).mode),
                word_left(edit_buffer(old(app).mode), edit_cursor(old(app).mode)),
            )
        },
    ensures
        old(app).mode is Editing && edit_cursor(old(app).mode) > 0 ==> is_editing(
            final(app).mode,
            cut(
                edit_buffer(old(app).mode),
                word_left(edit_buffer(old(app).mode), edit_cursor(old(app).mode)),
                edit_cursor(old(app).mode),
            ),
            word_left(edit_buffer(old(app).mode), edit_cursor(old(app).mode)),
        ),
        !(old(app).mode is Editing && edit_cursor(old(app).mode) > 0) ==> *final(app) == *old(app),
        mode_changed(*old(app), *final(app)),
{
    if in_editing(app) {
        let (v, len, cur) = edit_parts(app);
        if cur == 0 {
            return;
        }
        let a = back_over_exec(&v, cur, true);
        let b = back_over_exec(&v, a, false);
        let nv = cut_exec(&v, b, cur);
        set_edit(app, nv, b);
    }
}

/// Deletes from the cursor up to the start of the next word. (Both ends
/// must be character boundaries.)
pub fn delete_word_forward(app: &mut AppState)
    requires
        old(app).mode is Editing && edit_cursor(old(app).mode) < byte_len(edit_buffer(old(app).mode))
            ==> {
            &&& is_boundary(edit_buffer(old(app).mode), edit_cursor(old(app).mode))
            &&& is_boundary(
                edit_buffer(old(app).mode),
                word_right(
                    edit_buffer(old(app).mode),
                    edit_cursor(old(app).mode),
                    byte_len(edit_buffer(old(app).mode)) as int,
                ),
            )
        },
    ensures
        old(app).mode is Editing && edit_cursor(old(app).mode) < byte_len(edit_buffer(old(app).mode))
            ==> is_editing(
            final(app).mode,
            cut(
                edit_buffer(old(app).mode),
                edit_cursor(old(app).mode),
                word_right(
                    edit_buffer(old(app).mode),
                    edit_cursor(old(app).mode),
                    byte_len(edit_buffer(old(app).mode)) as int,
                ),
            ),
            edit_cursor(old(app).mode),
        ),
        !(old(app).mode is Editing && edit_cursor(old(app).mode) < byte_len(
            edit_buffer(old(app).mode),
        )) ==> *final(app) == *old(app),
        mode_changed(*old(app), *final(app)),
{
    if in_editing(app) {
        let (v, len, cur) = edit_parts(app);
        if cur >= len {
            return;
        }
        let a = fwd_over_exec(&v, cur, len, false);
        let b = fwd_over_exec(&v, a, len, true);
        let nv = cut_exec(&v, cur, b);
        set_edit(app, nv, cur);
    }
}

/// Deletes everything from the cursor on (nothing when the cursor is at or
/// past the end; otherwise it must stand on a character boundary).
pub fn delete_to_end(app: &mut AppState)
    requires
        old(app).mode is Editing && edit_cursor(old(app).mode) < byte_len(edit_buffer(old(app).mode))
            ==> is_boundary(edit_buffer(old(app).mode), edit_cursor(old(app).mode)),
    ensures
        old(app).mode is Editing && edit_cursor(old(app).mode) < byte_len(edit_buffer(old(app).mode))
            ==> is_editing(
            final(app).mode,
            edit_buffer(old(app).mode).take(
                char_index(edit_buffer(old(app).mode), edit_cursor(old(app).mode)),
            ),
            edit_cursor(old(app).mode),
        ),
        !(old(app).mode is Editing && edit_cursor(old(app).mode) < byte_len(
            edit_buffer(old(app).mode),
        )) ==> *final(app) == *old(app),
        mode_changed(*old(app), *final(app)),
{
    if in_editing(app) {
        let (v, len, cur) = edit_parts(app);
        if cur < len {
            let k = locate(&v, cur).unwrap();
            let nv = copy_range(&v, 0, k);
            set_edit(app, nv, cur);
        }
    }
}

/// Deletes everything before the cursor, which moves to the start. (The
/// cursor must stand on a character boundary.)
pub fn delete_to_start(app: &mut AppState)
    requires
        old(app).mode is Editing ==> is_boundary(edit_buffer(old(app).mode), edit_cursor(old(app).mode)),
    ensures
        old(app).mode is Editing ==> is_editing(
            final(app).mode,
            edit_buffer(old(app).mode).skip(
                char_index(edit_buffer(old(app).mode), edit_cursor(old(app).mode)),
            ),
            0,
        ),
        !(old(app).mode is Editing) ==> *final(app) == *old(app),
        mode_changed(*old(app), *final(app)),
{
    if in_editing(app) {
        let (v, len, cur) = edit_parts(app);
        let k = locate(&v, cur).unwrap();
        let n = v.len();
        let nv = copy_range(&v, k, n);
        set_edit(app, nv, 0);
    }
}

// ---------------------------------------------------------------------------
// Pasting, confirming, cancelling
// ---------------------------------------------------------------------------

/// Pasted text made fit for a one-line title: newlines become spaces,
/// carriage returns go, tabs become two spaces.
pub open spec fn paste_clean(s: Seq<char>) -> Seq<char>
    decreases s.len(),
{
    if s.len() == 0 {
        Seq::empty()
    } else {
        let r = paste_clean(s.drop_last());
        let c = s.last();
        if c == '\n' {
            r.push(' ')
        } else if c == '\r' {
            r
        } else if c == '\t' {
            r + seq![' ', ' ']
        } else {
            r.push(c)
        }
    }
}

fn paste_clean_exec(s: &Vec<char>) -> (r: Vec<char>)
    ensures
        r@ == paste_clean(s@),
{
    let n = s.len();
    let mut r: Vec<char> = Vec::new();
    let mut i: usize = 0;
    while i < n
        invariant
            n == s@.len(),
            0 <= i <= n,
            r@ == paste_clean(s@.take(i as int)),
        decreases n - i,
    {
        let c = s[i];
        proof {
            assert(s@.take(i + 1).drop_last() =~= s@.take(i as int));
            assert(s@.take(i + 1).last() == c);
        }
        if c == '\n' {
            r.push(' ');
        } else if c == '\r' {
        } else if c == '\t' {
            r.push(' ');
            r.push(' ');
            proof {
                assert(r@ =~= paste_clean(s@.take(i as int)) + seq![' ', ' ']);
            }
        } else {
            r.push(c);
        }
        i = i + 1;
    }
    proof {
        assert(s@.take(n as int) =~= s@);
    }
    r
}

/// Inserts text from the clipboard at the cursor, made fit for one line
/// (see [`paste_clean`]); the cursor moves past it. (The cursor must stand
/// on a character boundary.)
pub fn paste_at_cursor(app: &mut AppState, content: &str)
    requires
        old(app).mode is Editing ==> is_boundary(edit_buffer(old(app).mode), edit_cursor(old(app).mode)),
    ensures
        old(app).mode is Editing ==> is_editing(
            final(app).mode,
            edit_buffer(old(app).mode).take(
                char_index(edit_buffer(old(app).mode), edit_cursor(old(app).mode)),
            ) + paste_clean(content@) + edit_buffer(old(app).mode).skip(
                char_index(edit_buffer(old(app).mode), edit_cursor(old(app).mode)),
            ),
            edit_cursor(old(app).mode) + byte_len(paste_clean(content@)),
        ),
        !(old(app).mode is Editing) ==> *final(app) == *old(app),
        mode_changed(*old(app), *final(app)),
{
    if in_editing(app) {
        let (v, len, cur) = edit_parts(app);
        let k = locate(&v, cur).unwrap();
        proof {
            lemma_char_index(v@, k as int);
        }
        let cleaned = paste_clean_exec(&chars_of(content));
        let added = str_byte_len(string_from_chars(&cleaned).as_str());
        let n = v.len();
        let front = copy_range(&v, 0, k);
        let back = copy_range(&v, k, n);
        let nv = concat(&concat(&front, &cleaned), &back);
        set_edit(app, nv, cur + added);
    }
}

/// The tree with the title of `id` replaced.
pub open spec fn with_title(t: TreeView, id: NodeId, title: Seq<char>) -> TreeView {
    t.insert(id, ((title, t[id].0.1, t[id].0.2), t[id].1, t[id].2))
}

/// Replaces the title of node `id`.
pub(crate) fn set_title(tree: &mut Arena<Node>, id: NodeId, title: String)
    requires
        arena_ok(*old(tree)),
        arena_nodes(*old(tree)).contains_key(id),
    ensures
        arena_ok(*final(tree)),
        arena_nodes(*final(tree)) == with_title(arena_nodes(*old(tree)), id, title@),
        crate::tree::arena_slots(*final(tree)) == crate::tree::arena_slots(*old(tree)),
{
    let node = arena_get_data(tree, id).unwrap();
    let updated = Node { title, is_collapsed: node.is_collapsed, is_hidden: node.is_hidden };
    proof {
        crate::tree::lemma_set_data_wf(arena_nodes(*tree), id, updated@);
    }
    arena_set_data(tree, id, updated);
}

/// Leaves editing mode keeping the buffer: the undo history records the
/// tree, the active node takes the buffer as its title and the map becomes
/// unsaved. Without an active node only the mode changes; outside editing
/// mode nothing happens.
pub fn confirm_edit(app: &mut AppState)
    requires
        old(app).wf(),
    ensures
        final(app).wf(),
        !(old(app).mode is Editing) ==> *final(app) == *old(app),
        old(app).mode is Editing && old(app).active_node_id is None ==> *final(app) == (AppState {
            mode: AppMode::Normal,
            ..*old(app)
        }),
        old(app).mode is Editing ==> (old(app).active_node_id matches Some(a) ==> {
            &&& history_pushed(*old(app), *final(app))
            &&& final(app).mode == AppMode::Normal
            &&& old(app).tree_view().contains_key(a) ==> final(app).tree_view() == with_title(
                old(app).tree_view(),
                a,
                edit_buffer(old(app).mode),
            ) && final(app).is_dirty
            &&& !old(app).tree_view().contains_key(a) ==> final(app).tree == old(app).tree
                && final(app).is_dirty == old(app).is_dirty
            &&& *final(app) == (AppState {
                mode: AppMode::Normal,
                tree: final(app).tree,
                history: final(app).history,
                history_index: final(app).history_index,
                is_dirty: final(app).is_dirty,
                ..*old(app)
            })
        }),
{
    let new_title = match &app.mode {
        AppMode::Editing { buffer, .. } => buffer.clone(),
        _ => {
            return;
        },
    };
    if let Some(active_id) = app.active_node_id {
        app.push_history();
        if arena_get_data(&app.tree, active_id).is_some() {
            set_title(&mut app.tree, active_id, new_title);
            app.is_dirty = true;
        }
    }
    app.mode = AppMode::Normal;
}

/// Leaves editing mode, dropping the buffer.
pub fn cancel_edit(app: &mut AppState)
    ensures
        *final(app) == (AppState { mode: AppMode::Normal, ..*old(app) }),
{
    app.mode = AppMode::Normal;
}

/// The edits of `action` that cut or insert at byte offsets find character
/// boundaries there, in `mode`.
pub open spec fn byte_boundaries_ok(action: crate::actions::dispatch::Action, mode: AppMode) -> bool {
    let b = edit_buffer(mode);
    let c = edit_cursor(mode);
    let len = byte_len(b) as int;
    mode is Editing ==> match action {
        crate::actions::dispatch::Action::TypeChar(_) => is_boundary(b, c),
        crate::actions::dispatch::Action::Backspace => c > 0 ==> is_boundary(b, c - 1) && c - 1 < len,
        crate::actions::dispatch::Action::Delete => c < len ==> is_boundary(b, c),
        crate::actions::dispatch::Action::DeleteWordBackward => c > 0 ==> is_boundary(b, c) && is_boundary(b, word_left(b, c)),
        crate::actions::dispatch::Action::DeleteWordForward => c < len ==> is_boundary(b, c) && is_boundary(b, word_right(b, c, len)),
        crate::actions::dispatch::Action::DeleteToEnd => c < len ==> is_boundary(b, c),
        crate::actions::dispatch::Action::DeleteToStart => is_boundary(b, c),
        _ => true,
    }
}

/// Whether `action` finds the cursor where it needs it (see
/// [`byte_boundaries_ok`]).
pub fn edit_ready(action: crate::actions::dispatch::Action, mode: &AppMode) -> (ok: bool)
    ensures
        ok == byte_boundaries_ok(action, *mode),
{
    let (v, len, c) = match mode {
        AppMode::Editing { buffer, cursor_pos } => (chars_of(buffer.as_str()), str_byte_len(buffer.as_str()), *cursor_pos),
        _ => {
            return true;
        },
    };
    proof {
        assert(v@ == edit_buffer(*mode));
        assert(c == edit_cursor(*mode));
    }
    match action {
        crate::actions::dispatch::Action::TypeChar(_) => locate(&v, c).is_some(),
        crate::actions::dispatch::Action::Backspace => c == 0 || (locate(&v, c - 1).is_some() && c - 1 < len),
        crate::actions::dispatch::Action::Delete => c >= len || locate(&v, c).is_some(),
        crate::actions::dispatch::Action::DeleteWordBackward => {
            if c == 0 {
                true
            } else {
                let a = back_over_exec(&v, c, true);
                let b = back_over_exec(&v, a, false);
                locate(&v, c).is_some() && locate(&v, b).is_some()
            }
        },
        crate::actions::dispatch::Action::DeleteWordForward => {
            if c >= len {
                true
            } else {
                let a = fwd_over_exec(&v, c, len, false);
                let b = fwd_over_exec(&v, a, len, true);
                locate(&v, c).is_some() && locate(&v, b).is_some()
            }
        },
        crate::actions::dispatch::Action::DeleteToEnd => c >= len || locate(&v, c).is_some(),
        crate::actions::dispatch::Action::DeleteToStart => locate(&v, c).is_some(),
        _ => true,
    }
}

} // verus!
