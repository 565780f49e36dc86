//! Display widths and word wrapping of titles.
use crate::text::{chars_of, is_ws, is_ws_char, string_from_chars};
use unicode_width::UnicodeWidthStr;
use vstd::prelude::*;

verus! {

/// The number of terminal columns that `s` takes, as `unicode-width`
/// measures it (Unicode's East Asian Width with the crate's emoji and
/// ligature rules, which take tables to state).
pub uninterp spec fn display_width(s: Seq<char>) -> nat;

/// `UnicodeWidthStr::width`: the columns `s` takes; printable ASCII
/// characters (U+0020 to U+007E) take one column each.
#[verifier::external_body]
pub(crate) fn str_width(s: &str) -> (w: usize)
    ensures
        w == display_width(s@),
        (forall|i: int| 0 <= i < s@.len() ==> 0x20 <= #[trigger] (s@[i] as u32) <= 0x7e) ==> w == s@.len(),
{
    s.width()
}

/// The words of `s`: its longest runs of characters that are not white
/// space, in order (`str::split_whitespace`).
pub open spec fn words(s: Seq<char>) -> Seq<Seq<char>>
    decreases s.len(),
{
    if s.len() == 0 {
        Seq::empty()
    } else {
        let w = words(s.drop_last());
        if is_ws(s.last()) {
            w
        } else if s.len() >= 2 && !is_ws(s[s.len() - 2]) {
            w.update(w.len() - 1, w.last().push(s.last()))
        } else {
            w.push(seq![s.last()])
        }
    }
}

/// The state of greedy wrapping: the finished lines, the line being filled
/// and its width.
pub type WrapState = (Seq<Seq<char>>, Seq<char>, nat);

/// Adds a word: it goes on the current line, after a space, unless the
/// line has some width and would then be wider than `max`; then the line is
/// finished and the word starts the next one.
pub open spec fn wrap_step(st: WrapState, word: Seq<char>, max: nat) -> WrapState {
    let ww = display_width(word);
    if st.2 > 0 && st.2 + 1 + ww > max {
        (st.0.push(st.1), word, ww)
    } else if st.1.len() > 0 {
        (st.0, st.1.push(' ') + word, st.2 + 1 + ww)
    } else {
        (st.0, st.1 + word, st.2 + ww)
    }
}

/// The state after adding the words `ws`.
pub open spec fn wrap_words(ws: Seq<Seq<char>>, max: nat) -> WrapState
    decreases ws.len(),
{
    if ws.len() == 0 {
        (Seq::empty(), Seq::empty(), 0)
    } else {
        wrap_step(wrap_words(ws.drop_last(), max), ws.last(), max)
    }
}

/// The lines of `text` wrapped greedily at `max` columns, words separated by
/// one space; a word wider than `max` gets a line of its own. A text without
/// words is one line, as it is.
pub open spec fn wrap_text(text: Seq<char>, max: nat) -> Seq<Seq<char>> {
    let st = wrap_words(words(text), max);
    let lines = if st.1.len() > 0 {
        st.0.push(st.1)
    } else {
        st.0
    };
    if lines.len() == 0 {
        seq![text]
    } else {
        lines
    }
}

/// Splits `s` into its words.
fn split_words(s: &Vec<char>) -> (ws: Vec<Vec<char>>)
    ensures
        ws@.map_values(|w: Vec<char>| w@) == words(s@),
{
    let n = s.len();
    let mut ws: Vec<Vec<char>> = Vec::new();
    let mut cur: Vec<char> = Vec::new();
    let mut i: usize = 0;
    while i < n
        invariant
            n == s@.len(),
            0 <= i <= n,
            i == 0 || is_ws(s@[i - 1]) ==> cur@.len() == 0 && ws@.map_values(|w: Vec<char>| w@)
                == words(s@.take(i as int)),
            i > 0 && !is_ws(s@[i - 1]) ==> cur@.len() > 0 && ws@.map_values(|w: Vec<char>| w@).push(
                cur@,
            ) == words(s@.take(i as int)),
        decreases n - i,
    {
        let c = s[i];
        let ghost pre = s@.take(i as int);
        proof {
            assert(s@.take(i + 1).drop_last() =~= pre);
            assert(s@.take(i + 1).last() == c);
            if i > 0 {
                assert(s@.take(i + 1)[i - 1] == s@[i - 1]);
            }
        }
        if is_ws_char(c) {
            if cur.len() > 0 {
                let ghost before = ws@.map_values(|w: Vec<char>| w@);
                ws.push(cur);
                cur = Vec::new();
                assert(ws@.map_values(|w: Vec<char>| w@) =~= before.push(
                    ws@[ws@.len() - 1]@,
                ));
            }
        } else {
            let ghost before = ws@.map_values(|w: Vec<char>| w@);
            let ghost was = cur@;
            cur.push(c);
            proof {
                if i > 0 && !is_ws(s@[i - 1]) {
                    let w0 = words(pre);
                    assert(w0 == before.push(was));
                    assert(words(s@.take(i + 1)) == w0.update(w0.len() - 1, w0.last().push(c)));
                    assert(before.push(cur@) =~= w0.update(w0.len() - 1, w0.last().push(c)));
                } else {
                    assert(words(s@.take(i + 1)) == words(pre).push(seq![c]));
                    assert(cur@ =~= seq![c]);
                }
            }
        }
        i = i + 1;
    }
    proof {
        assert(s@.take(n as int) =~= s@);
    }
    if cur.len() > 0 {
        let ghost before = ws@.map_values(|w: Vec<char>| w@);
        ws.push(cur);
        assert(ws@.map_values(|w: Vec<char>| w@) =~= before.push(ws@[ws@.len() - 1]@));
    }
    ws
}

/// Wraps titles into lines.
pub struct TextWrapper;

impl TextWrapper {
    /// The lines of `text` wrapped at `max_width` columns (see
    /// [`wrap_text`]).
    pub fn wrap(text: &str, max_width: usize) -> (lines: Vec<String>)
        ensures
            lines@.map_values(|l: String| l@) == wrap_text(text@, max_width as nat),
    {
        let chars = chars_of(text);
        let ws = split_words(&chars);
        let ghost wv = ws@.map_values(|w: Vec<char>| w@);
        let mut lines: Vec<String> = Vec::new();
        let mut cur: Vec<char> = Vec::new();
        let mut cur_w: u128 = 0;
        let mut i: usize = 0;
        while i < ws.len()
            invariant
                0 <= i <= ws@.len(),
                wv == ws@.map_values(|w: Vec<char>| w@),
                wv == words(text@),
                cur_w <= max_width as int + 1 + usize::MAX,
                (lines@.map_values(|l: String| l@), cur@, cur_w as nat) == wrap_words(
                    wv.take(i as int),
                    max_width as nat,
                ),
            decreases ws@.len() - i,
        {
            let word = &ws[i];
            let ww = str_width(string_from_chars(word).as_str()) as u128;
            proof {
                assert(wv.take(i + 1).drop_last() =~= wv.take(i as int));
                assert(wv.take(i + 1).last() == word@);
            }
            let ghost lv = lines@.map_values(|l: String| l@);
            if cur_w > 0 && cur_w + 1 + ww > max_width as u128 {
                lines.push(string_from_chars(&cur));
                cur = copy_all(word);
                cur_w = ww;
                assert(lines@.map_values(|l: String| l@) =~= lv.push(lines@[lines@.len() - 1]@));
            } else if cur.len() > 0 {
                cur.push(' ');
                crate::text::push_all(&mut cur, word);
                cur_w = cur_w + 1 + ww;
            } else {
                crate::text::push_all(&mut cur, word);
                cur_w = cur_w + ww;
            }
            i = i + 1;
        }
        proof {
            assert(wv.take(ws@.len() as int) =~= wv);
        }
        if cur.len() > 0 {
            let ghost lv = lines@.map_values(|l: String| l@);
            lines.push(string_from_chars(&cur));
            assert(lines@.map_values(|l: String| l@) =~= lv.push(lines@[lines@.len() - 1]@));
        }
        if lines.len() == 0 {
            lines.push(crate::text::owned(text));
            assert(lines@.map_values(|l: String| l@) =~= seq![text@]);
        }
        lines
    }
}

/// A copy of `v`.
fn copy_all(v: &Vec<char>) -> (r: Vec<char>)
    ensures
        r@ == v@,
{
    crate::text::copy_range(v, 0, v.len())
}

} // verus!
