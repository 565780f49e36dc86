//! Title markers (symbols, the hidden marker), the hidden-node toggle and
//! the line spacing.
use crate::actions::editing::{set_title, with_title};
use crate::app::{history_pushed, AppState};
use crate::model::{hidden_marker, starts_with};
use crate::text::{chars_of, decimal, owned, push_all, push_decimal, push_repeat, push_str, repeat_char, string_from_chars, trim, trim_chars};
use crate::tree::{arena_get_data, title_of};
use vstd::prelude::*;

verus! {

/// `sym` followed by a space.
pub open spec fn marker(sym: Seq<char>) -> Seq<char> {
    sym.push(' ')
}

/// The title after a symbol step: none → first symbol → second symbol →
/// none. Each symbol stands at the start of the title, followed by a space.
pub open spec fn toggled_symbol(title: Seq<char>, s1: Seq<char>, s2: Seq<char>) -> Seq<char> {
    if starts_with(title, marker(s1)) {
        marker(s2) + title.skip(marker(s1).len() as int)
    } else if starts_with(title, marker(s2)) {
        title.skip(marker(s2).len() as int)
    } else {
        marker(s1) + title
    }
}

/// `v` starts with `p`.
fn vec_starts_with(v: &Vec<char>, p: &Vec<char>) -> (b: bool)
    ensures
        b == starts_with(v@, p@),
{
    let n = v.len();
    let m = p.len();
    if m > n {
        return false;
    }
    let mut i: usize = 0;
    while i < m
        invariant
            m <= n,
            n == v@.len(),
            m == p@.len(),
            0 <= i <= m,
            forall|k: int| 0 <= k < i ==> v@[k] == p@[k],
        decreases m - i,
    {
        if v[i] != p[i] {
            assert(v@.subrange(0, m as int)[i as int] != p@[i as int]);
            return false;
        }
        i = i + 1;
    }
    assert(v@.subrange(0, m as int) =~= p@);
    true
}

/// Steps the symbol of the active node's title (see [`toggled_symbol`]),
/// after recording the tree in the undo history.
pub fn toggle_symbol(app: &mut AppState)
    requires
        old(app).wf(),
    ensures
        final(app).wf(),
        old(app).active_node_id is None ==> *final(app) == *old(app),
        old(app).active_node_id matches Some(a) ==> {
            &&& history_pushed(*old(app), *final(app))
            &&& old(app).tree_view().contains_key(a) ==> final(app).tree_view() == with_title(
                old(app).tree_view(),
                a,
                toggled_symbol(title_of(old(app).tree_view(), a), old(app).config.symbol1@, old(app).config.symbol2@),
            )
            &&& !old(app).tree_view().contains_key(a) ==> final(app).tree == old(app).tree
            &&& *final(app) == (AppState {
                tree: final(app).tree,
                history: final(app).history,
                history_index: final(app).history_index,
                ..*old(app)
            })
        },
{
    if let Some(active_id) = app.active_node_id {
        app.push_history();
        if let Some(node) = arena_get_data(&app.tree, active_id) {
            let title = chars_of(node.title.as_str());
            let mut m1 = chars_of(app.config.symbol1.as_str());
            m1.push(' ');
            let mut m2 = chars_of(app.config.symbol2.as_str());
            m2.push(' ');
            let mut out: Vec<char> = Vec::new();
            let n = title.len();
            if vec_starts_with(&title, &m1) {
                push_all(&mut out, &m2);
                push_all(&mut out, &crate::text::copy_range(&title, m1.len(), n));
            } else if vec_starts_with(&title, &m2) {
                push_all(&mut out, &crate::text::copy_range(&title, m2.len(), n));
            } else {
                push_all(&mut out, &m1);
                push_all(&mut out, &title);
            }
            proof {
                assert(out@ =~= toggled_symbol(title@, app.config.symbol1@, app.config.symbol2@));
            }
            set_title(&mut app.tree, active_id, string_from_chars(&out));
        }
    }
}

/// The title with the hidden marker taken off, or put on.
pub open spec fn toggled_hidden(title: Seq<char>) -> Seq<char> {
    if starts_with(title, hidden_marker()) {
        title.skip(hidden_marker().len() as int)
    } else {
        hidden_marker() + title
    }
}

/// Takes the hidden marker ("[HIDDEN] ") off the active node's title, or
/// puts it on, after recording the tree in the undo history; the message
/// says "Node unhidden" or "Node hidden".
pub fn toggle_hide(app: &mut AppState)
    requires
        old(app).wf(),
    ensures
        final(app).wf(),
        old(app).active_node_id is None ==> *final(app) == *old(app),
        old(app).active_node_id matches Some(a) ==> {
            &&& history_pushed(*old(app), *final(app))
            &&& old(app).tree_view().contains_key(a) ==> {
                &&& final(app).tree_view() == with_title(
                    old(app).tree_view(),
                    a,
                    toggled_hidden(title_of(old(app).tree_view(), a)),
                )
                &&& final(app).message matches Some(m) && m@ == (if starts_with(
                    title_of(old(app).tree_view(), a),
                    hidden_marker(),
                ) {
                    "Node unhidden"@
                } else {
                    "Node hidden"@
                })
            }
            &&& !old(app).tree_view().contains_key(a) ==> final(app).tree == old(app).tree
                && final(app).message == old(app).message
            &&& *final(app) == (AppState {
                tree: final(app).tree,
                history: final(app).history,
                history_index: final(app).history_index,
                message: final(app).message,
                ..*old(app)
            })
        },
{
    if let Some(active_id) = app.active_node_id {
        app.push_history();
        if let Some(node) = arena_get_data(&app.tree, active_id) {
            let title = chars_of(node.title.as_str());
            let marker = chars_of("[HIDDEN] ");
            proof {
                reveal_strlit("[HIDDEN] ");
                assert(marker@ =~= hidden_marker());
            }
            let n = title.len();
            if vec_starts_with(&title, &marker) {
                let rest = crate::text::copy_range(&title, 9, n);
                set_title(&mut app.tree, active_id, string_from_chars(&rest));
                app.set_message(owned("Node unhidden"));
            } else {
                let mut out = marker;
                push_all(&mut out, &title);
                set_title(&mut app.tree, active_id, string_from_chars(&out));
                app.set_message(owned("Node hidden"));
            }
        }
    }
}

/// Turns the showing of hidden nodes on or off; the message says which
/// ("Show hidden: ON" or "Show hidden: OFF").
pub fn toggle_show_hidden(app: &mut AppState)
    ensures
        final(app).config == (crate::config::AppConfig { show_hidden: !old(app).config.show_hidden, ..old(app).config }),
        final(app).message matches Some(m) && m@ == (if final(app).config.show_hidden {
            "Show hidden: ON"@
        } else {
            "Show hidden: OFF"@
        }),
        *final(app) == (AppState { config: final(app).config, message: final(app).message, ..*old(app) }),
{
    app.config.show_hidden = !app.config.show_hidden;
    if app.config.show_hidden {
        app.set_message(owned("Show hidden: ON"));
    } else {
        app.set_message(owned("Show hidden: OFF"));
    }
}

/// Sorting siblings is not offered; the message says so.
pub fn sort_siblings(app: &mut AppState)
    ensures
        final(app).message matches Some(m) && m@ == "Sorting not yet implemented"@,
        *final(app) == (AppState { message: final(app).message, ..*old(app) }),
{
    app.set_message(owned("Sorting not yet implemented"));
}

/// Numbering is not offered; the message says so.
pub fn toggle_numbers(app: &mut AppState)
    ensures
        final(app).message matches Some(m) && m@ == "Numbering not yet implemented"@,
        *final(app) == (AppState { message: final(app).message, ..*old(app) }),
{
    app.set_message(owned("Numbering not yet implemented"));
}

/// "Line spacing: `n`".
pub open spec fn spacing_message(n: nat) -> Seq<char> {
    "Line spacing: "@ + decimal(n)
}

fn report_spacing(app: &mut AppState)
    ensures
        final(app).message matches Some(m) && m@ == spacing_message(old(app).config.line_spacing as nat),
        *final(app) == (AppState { message: final(app).message, ..*old(app) }),
{
    let mut msg: Vec<char> = Vec::new();
    push_str(&mut msg, "Line spacing: ");
    push_decimal(&mut msg, app.config.line_spacing);
    app.set_message(string_from_chars(&msg));
}

/// Adds one line of spacing between nodes and reports the spacing.
pub fn increase_line_spacing(app: &mut AppState)
    requires
        old(app).config.line_spacing < usize::MAX,
    ensures
        final(app).config == (crate::config::AppConfig { line_spacing: (old(app).config.line_spacing + 1) as usize, ..old(app).config }),
        final(app).message matches Some(m) && m@ == spacing_message(final(app).config.line_spacing as nat),
        *final(app) == (AppState { config: final(app).config, message: final(app).message, ..*old(app) }),
{
    app.config.line_spacing = app.config.line_spacing + 1;
    report_spacing(app);
}

/// Takes one line of spacing away, down to none, and reports the spacing.
pub fn decrease_line_spacing(app: &mut AppState)
    ensures
        final(app).config == (crate::config::AppConfig {
            line_spacing: if old(app).config.line_spacing > 0 {
                (old(app).config.line_spacing - 1) as usize
            } else {
                0
            },
            ..old(app).config
        }),
        final(app).message matches Some(m) && m@ == spacing_message(final(app).config.line_spacing as nat),
        *final(app) == (AppState { config: final(app).config, message: final(app).message, ..*old(app) }),
{
    if app.config.line_spacing > 0 {
        app.config.line_spacing = app.config.line_spacing - 1;
    }
    report_spacing(app);
}

/// The number of times `c` occurs in `s`.
pub open spec fn count_of(s: Seq<char>, c: char) -> nat
    decreases s.len(),
{
    if s.len() == 0 {
        0
    } else {
        count_of(s.drop_last(), c) + if s.last() == c {
            1nat
        } else {
            0
        }
    }
}

/// `s` without its full and empty stars ('★', '☆').
pub open spec fn without_stars(s: Seq<char>) -> Seq<char>
    decreases s.len(),
{
    if s.len() == 0 {
        Seq::empty()
    } else {
        let r = without_stars(s.drop_last());
        if s.last() == '★' || s.last() == '☆' {
            r
        } else {
            r.push(s.last())
        }
    }
}

/// The number of stars after adding `change` to `current`, kept between 0
/// and 5.
pub open spec fn star_count(current: int, change: int) -> nat {
    let n = current + change;
    if n < 0 {
        0
    } else if n > 5 {
        5
    } else {
        n as nat
    }
}

/// The title with its stars set to `n` out of five: the stars are taken out
/// and the rest trimmed; with `n` above 0, a space and `n` full and `5 - n`
/// empty stars follow.
pub open spec fn with_stars(title: Seq<char>, n: nat) -> Seq<char> {
    let base = trim(without_stars(title));
    if n > 0 {
        base + seq![' '] + repeat_char('★', n) + repeat_char('☆', (5 - n) as nat)
    } else {
        base
    }
}

/// "`n` stars".
pub open spec fn stars_message(n: nat) -> Seq<char> {
    decimal(n) + " stars"@
}

/// `b` is `a` after the active node got one star more (`up`) or one less,
/// out of five: the tree recorded in the history, the stars of the title
/// set anew (see [`with_stars`]), the message giving their number. Without
/// an active node nothing changed.
pub open spec fn stars_modified(a: AppState, b: AppState, up: bool) -> bool {
    &&& a.active_node_id is None ==> b == a
    &&& a.active_node_id matches Some(id) ==> {
        let n = star_count(count_of(title_of(a.tree_view(), id), '★') as int, if up { 1 } else { -1 });
        &&& history_pushed(a, b)
        &&& b.tree_view() == with_title(a.tree_view(), id, with_stars(title_of(a.tree_view(), id), n))
        &&& crate::app::says(b.message, stars_message(n))
        &&& b == (AppState {
            tree: b.tree,
            history: b.history,
            history_index: b.history_index,
            message: b.message,
            ..a
        })
    }
}

/// The precondition of the star changes: the full stars of the active
/// node's title can be counted in 32 bits.
pub open spec fn stars_countable(a: AppState) -> bool {
    a.active_node_id matches Some(id) ==> count_of(title_of(a.tree_view(), id), '★') <= i32::MAX
}

/// Gives the active node one star more (`up`) or one less, out of five,
/// after recording the tree in the undo history; the message gives the
/// number of stars. (The stars are counted in 32 bits.)
pub fn modify_stars(app: &mut AppState, up: bool)
    requires
        old(app).wf(),
        old(app).active_ok(),
        old(app).active_node_id matches Some(a) ==> count_of(title_of(old(app).tree_view(), a), '★') <= i32::MAX,
    ensures
        final(app).wf(),
        stars_modified(*old(app), *final(app), up),
{
    if let Some(active_id) = app.active_node_id {
        app.push_history();
        let node = arena_get_data(&app.tree, active_id).unwrap();
        let title = chars_of(node.title.as_str());
        let ghost tv = title@;
        let mut stars: usize = 0;
        let mut kept: Vec<char> = Vec::new();
        let mut i: usize = 0;
        while i < title.len()
            invariant
                0 <= i <= title@.len(),
                tv == title@,
                stars == count_of(tv.take(i as int), '★'),
                stars <= i,
                kept@ == without_stars(tv.take(i as int)),
            decreases title@.len() - i,
        {
            let c = title[i];
            proof {
                assert(tv.take(i + 1).drop_last() =~= tv.take(i as int));
                assert(tv.take(i + 1).last() == c);
            }
            if c == '★' {
                stars = stars + 1;
            }
            if c != '★' && c != '☆' {
                kept.push(c);
            }
            i = i + 1;
        }
        proof {
            assert(tv.take(title@.len() as int) =~= tv);
        }
        let n: usize = if up {
            if stars >= 5 {
                5
            } else {
                stars + 1
            }
        } else if stars == 0 {
            0
        } else if stars - 1 > 5 {
            5
        } else {
            stars - 1
        };
        let mut out = trim_chars(&kept);
        if n > 0 {
            out.push(' ');
            push_repeat(&mut out, '★', n);
            push_repeat(&mut out, '☆', 5 - n);
        }
        proof {
            assert(n == star_count(stars as int, if up { 1 } else { -1 }));
            assert(out@ =~= with_stars(tv, n as nat));
        }
        set_title(&mut app.tree, active_id, string_from_chars(&out));
        let mut msg: Vec<char> = Vec::new();
        push_decimal(&mut msg, n);
        push_str(&mut msg, " stars");
        app.set_message(string_from_chars(&msg));
    }
}

/// Gives the active node one star more, up to five (see [`stars_modified`]).
pub fn add_star(app: &mut AppState)
    requires
        old(app).wf(),
        old(app).active_ok(),
        stars_countable(*old(app)),
    ensures
        final(app).wf(),
        stars_modified(*old(app), *final(app), true),
{
    modify_stars(app, true);
}

/// Gives the active node one star less, down to none (see
/// [`stars_modified`]).
pub fn remove_star(app: &mut AppState)
    requires
        old(app).wf(),
        old(app).active_ok(),
        stars_countable(*old(app)),
    ensures
        final(app).wf(),
        stars_modified(*old(app), *final(app), false),
{
    modify_stars(app, false);
}

} // verus!
