//! Ranks: a title can start with "(P+,N-) ", a count of votes for and
//! against.
use crate::actions::editing::{set_title, with_title};
use crate::app::{history_pushed, says, AppState};
use crate::text::{chars_of, decimal, digit_char, push_decimal, push_str, string_from_chars};
use crate::tree::{arena_get_data, title_of};
use regex::Regex;
use vstd::prelude::*;

verus! {

/// The decimal digits of Unicode (general category Nd) outside ASCII, which
/// `regex`'s `\d` matches too; the list takes tables to state.
pub uninterp spec fn other_decimal_digit(c: char) -> bool;

/// A character that `\d` matches: an ASCII digit, or one of Unicode's other
/// decimal digits (none of which is ASCII).
pub open spec fn is_decimal_digit(c: char) -> bool {
    ('0' <= c <= '9') || (c as u32 >= 0x80 && other_decimal_digit(c))
}

/// One or more decimal digits (`\d+`).
pub open spec fn digit_run(s: Seq<char>) -> bool {
    s.len() > 0 && forall|i: int| 0 <= i < s.len() ==> is_decimal_digit(#[trigger] s[i])
}

/// The text of a rank with the digit runs `p` and `n`: "(p+,n-) ".
pub open spec fn rank_text(p: Seq<char>, n: Seq<char>) -> Seq<char> {
    "("@ + p + "+,"@ + n + "-) "@
}

/// `title` starts with the rank text of the digit runs `p` and `n`.
pub open spec fn starts_with_rank(title: Seq<char>, p: Seq<char>, n: Seq<char>) -> bool {
    &&& digit_run(p)
    &&& digit_run(n)
    &&& rank_text(p, n).len() <= title.len()
    &&& title.take(rank_text(p, n).len() as int) == rank_text(p, n)
}

/// What `Regex::captures` with the pattern `^\((\d+)\+,(\d+)\-\) ` finds
/// in `title`: the two digit runs of a leading rank "(p+,n-) ", if the title
/// starts with one. (As '+' and '-' are no digits, there is at most one.)
pub open spec fn rank_capture(title: Seq<char>) -> Option<(Seq<char>, Seq<char>)> {
    if exists|p: Seq<char>, n: Seq<char>| #[trigger] starts_with_rank(title, p, n) {
        Some(choose|p: Seq<char>, n: Seq<char>| #[trigger] starts_with_rank(title, p, n))
    } else {
        None
    }
}

/// The characters of `rank_text(p, n)`: '(' , then `p`, "+,", `n`, "-) ".
proof fn lemma_rank_text_chars(p: Seq<char>, n: Seq<char>)
    ensures
        ({
            let t = rank_text(p, n);
            let a = p.len() as int;
            let b = n.len() as int;
            &&& t.len() == a + b + 6
            &&& t[0] == '('
            &&& forall|k: int| 0 <= k < a ==> t[1 + k] == #[trigger] p[k]
            &&& t[1 + a] == '+'
            &&& t[2 + a] == ','
            &&& forall|k: int| 0 <= k < b ==> t[3 + a + k] == #[trigger] n[k]
            &&& t[3 + a + b] == '-'
        }),
{
    reveal_strlit("(");
    reveal_strlit("+,");
    reveal_strlit("-) ");
}

/// A title that starts with the rank text of the digit runs `p` and `n`
/// has exactly these as its rank.
pub proof fn lemma_rank_capture_of(title: Seq<char>, p: Seq<char>, n: Seq<char>)
    requires
        starts_with_rank(title, p, n),
    ensures
        rank_capture(title) == Some((p, n)),
{
    assert(starts_with_rank(title, p, n));
    let (p2, n2) = choose|p2: Seq<char>, n2: Seq<char>| #[trigger] starts_with_rank(title, p2, n2);
    lemma_rank_text_chars(p, n);
    lemma_rank_text_chars(p2, n2);
    let t = rank_text(p, n);
    let t2 = rank_text(p2, n2);
    let lp = p.len() as int;
    let lp2 = p2.len() as int;
    let ln = n.len() as int;
    let ln2 = n2.len() as int;
    assert forall|k: int| 0 <= k < t.len() implies title[k] == #[trigger] t[k] by {
        assert(title.take(t.len() as int)[k] == title[k]);
    }
    assert forall|k: int| 0 <= k < t2.len() implies title[k] == #[trigger] t2[k] by {
        assert(title.take(t2.len() as int)[k] == title[k]);
    }
    // the first runs have the same length: the shorter one is followed by '+'
    if lp2 < lp {
        assert(title[1 + lp2] == t2[1 + lp2]);
        assert(title[1 + lp2] == t[1 + lp2]);
        assert(is_decimal_digit(p[lp2]));
        assert(false);
    }
    if lp < lp2 {
        assert(title[1 + lp] == t[1 + lp]);
        assert(title[1 + lp] == t2[1 + lp]);
        assert(is_decimal_digit(p2[lp]));
        assert(false);
    }
    assert forall|k: int| 0 <= k < p.len() implies p[k] == p2[k] by {
        assert(title[1 + k] == t[1 + k]);
        assert(title[1 + k] == t2[1 + k]);
    }
    assert(p =~= p2);
    let b = 3 + lp;
    if ln2 < ln {
        assert(title[b + ln2] == t2[b + ln2]);
        assert(title[b + ln2] == t[b + ln2]);
        assert(is_decimal_digit(n[ln2]));
        assert(false);
    }
    if ln < ln2 {
        assert(title[b + ln] == t[b + ln]);
        assert(title[b + ln] == t2[b + ln]);
        assert(is_decimal_digit(n2[ln]));
        assert(false);
    }
    assert forall|k: int| 0 <= k < n.len() implies n[k] == n2[k] by {
        assert(title[b + k] == t[b + k]);
        assert(title[b + k] == t2[b + k]);
    }
    assert(n =~= n2);
}

/// `Regex::new(r"^\((\d+)\+,(\d+)\-\) ")`, then `Regex::captures` on
/// `title`, groups 1 and 2. Claimed of it: the result is [`rank_capture`]
/// (the pattern is anchored at the start, each group is one or more
/// characters of `\d`, Unicode's decimal digits), so the title starts with
/// the rank text of the two runs.
#[verifier::external_body]
fn rank_captures(title: &str) -> (r: Option<(String, String)>)
    ensures
        r is None <==> rank_capture(title@) is None,
        r matches Some(c) ==> {
            &&& rank_capture(title@) == Some((c.0@, c.1@))
            &&& c.0@.len() > 0 && c.1@.len() > 0
            &&& rank_text(c.0@, c.1@).len() <= title@.len()
            &&& title@.take(rank_text(c.0@, c.1@).len() as int) == rank_text(c.0@, c.1@)
            &&& forall|i: int| 0 <= i < c.0@.len() ==> '0' <= #[trigger] c.0@[i] <= '9' || other_decimal_digit(c.0@[i])
            &&& forall|i: int| 0 <= i < c.1@.len() ==> '0' <= #[trigger] c.1@[i] <= '9' || other_decimal_digit(c.1@[i])
        },
{
    let re = Regex::new(r"^\((\d+)\+,(\d+)\-\) ").unwrap();
    re.captures(title).map(|c| (c[1].to_string(), c[2].to_string()))
}

/// `Regex::new(r"^\(\d+\+,\d+\-\) ")`, then `Regex::replace` of its match in
/// `title` with nothing. Claimed of it: this pattern matches the same text
/// as the one of [`rank_captures`] (the same pattern without groups), so
/// when [`rank_capture`] finds a rank, the result is the title after the
/// rank text.
#[verifier::external_body]
fn strip_rank(title: &str) -> (r: String)
    ensures
        rank_capture(title@) matches Some(c) ==> r@ == title@.skip(rank_text(c.0, c.1).len() as int),
        rank_capture(title@) is None ==> r@ == title@,
{
    let re = Regex::new(r"^\(\d+\+,\d+\-\) ").unwrap();
    re.replace(title, "").to_string()
}

/// What `str::parse::<i32>` reads from `s`: an optional sign and one or
/// more ASCII digits, whose value fits in 32 bits.
pub open spec fn parse_i32(s: Seq<char>) -> Option<i32> {
    let neg = s.len() > 0 && s[0] == '-';
    let signed = s.len() > 0 && (s[0] == '-' || s[0] == '+');
    let digits = if signed {
        s.skip(1)
    } else {
        s
    };
    if digits.len() > 0 && all_ascii_digits(digits) {
        let v = if neg {
            -digits_value(digits)
        } else {
            digits_value(digits)
        };
        if i32::MIN <= v <= i32::MAX {
            Some(v as i32)
        } else {
            None
        }
    } else {
        None
    }
}

/// Every character of `s` is an ASCII digit.
pub open spec fn all_ascii_digits(s: Seq<char>) -> bool {
    forall|i: int| 0 <= i < s.len() ==> 0x30 <= (#[trigger] s[i]) as u32 <= 0x39
}

/// The value of the ASCII digits `s`.
pub open spec fn digits_value(s: Seq<char>) -> int
    decreases s.len(),
{
    if s.len() == 0 {
        0
    } else {
        10 * digits_value(s.drop_last()) + (s.last() as u32 - 0x30)
    }
}

/// `str::parse::<i32>` (see [`parse_i32`]).
pub fn parse_i32_exec(s: &str) -> (r: Option<i32>)
    ensures
        r == parse_i32(s@),
{
    let v = chars_of(s);
    let n = v.len();
    let neg = n > 0 && v[0] == '-';
    let signed = n > 0 && (v[0] == '-' || v[0] == '+');
    let start: usize = if signed {
        1
    } else {
        0
    };
    let ghost digits = if signed {
        s@.skip(1)
    } else {
        s@
    };
    if start >= n {
        assert(digits.len() == 0);
        return None;
    }
    let mut acc: i64 = 0;
    let mut i = start;
    while i < n
        invariant
            n == v@.len(),
            v@ == s@,
            signed == (s@.len() > 0 && (s@[0] == '-' || s@[0] == '+')),
            neg == (s@.len() > 0 && s@[0] == '-'),
            start <= i <= n,
            start == if signed {
                1int
            } else {
                0
            },
            digits == (if signed {
                s@.skip(1)
            } else {
                s@
            }),
            digits.len() == n - start,
            forall|k: int| 0 <= k < digits.len() ==> digits[k] == #[trigger] s@[k + start],
            all_ascii_digits(digits.take(i - start)),
            acc == digits_value(digits.take(i - start)),
            0 <= acc <= 0x8000_0000,
        decreases n - i,
    {
        let c = v[i];
        proof {
            assert(digits.take(i + 1 - start).drop_last() =~= digits.take(i - start));
            assert(digits.take(i + 1 - start).last() == c);
        }
        let cu = c as u32;
        if cu < 0x30 || cu > 0x39 {
            proof {
                assert(digits[i - start] == c);
                assert(!all_ascii_digits(digits));
            }
            return None;
        }
        let d = (cu - 0x30) as i64;
        acc = 10 * acc + d;
        if acc > 0x8000_0000 {
            proof {
                assert(acc == digits_value(digits.take(i + 1 - start)));
                if all_ascii_digits(digits) {
                    lemma_value_grows(digits, i + 1 - start);
                    assert(digits_value(digits) > 0x8000_0000);
                    let val = digits_value(digits);
                    let vv = if neg { -val } else { val };
                    assert(!(i32::MIN <= vv <= i32::MAX));
                }
                assert(parse_i32(s@) is None);
            }
            return None;
        }
        i = i + 1;
    }
    proof {
        assert(digits.take(n - start) =~= digits);
    }
    if neg {
        Some((-acc) as i32)
    } else if acc > 0x7fff_ffff {
        None
    } else {
        Some(acc as i32)
    }
}

/// A digit string is worth at least any of its prefixes.
proof fn lemma_value_grows(s: Seq<char>, k: int)
    requires
        0 <= k <= s.len(),
        all_ascii_digits(s),
    ensures
        digits_value(s) >= digits_value(s.take(k)),
        digits_value(s.take(k)) >= 0,
    decreases s.len(),
{
    if k < s.len() {
        lemma_value_grows(s.drop_last(), k);
        assert(s.drop_last().take(k) =~= s.take(k));
        lemma_nonneg(s.drop_last());
    } else {
        assert(s.take(k) =~= s);
        lemma_nonneg(s);
    }
}

proof fn lemma_nonneg(s: Seq<char>)
    requires
        all_ascii_digits(s),
    ensures
        digits_value(s) >= 0,
    decreases s.len(),
{
    if s.len() > 0 {
        lemma_nonneg(s.drop_last());
    }
}

/// `a + b` in 32 bits, wrapping around (as the arithmetic of a release
/// build does).
pub open spec fn wrap_add(a: i32, b: i32) -> i32 {
    let s = a + b;
    if s > i32::MAX {
        (s - 0x1_0000_0000) as i32
    } else if s < i32::MIN {
        (s + 0x1_0000_0000) as i32
    } else {
        s as i32
    }
}

/// The count after a change, never below zero.
pub open spec fn changed_count(old: i32, change: i32) -> i32 {
    let v = wrap_add(old, change);
    if v < 0 {
        0
    } else {
        v
    }
}

fn change_count(old: i32, change: i32) -> (r: i32)
    ensures
        r == changed_count(old, change),
{
    let s = old as i64 + change as i64;
    let v: i64 = if s > 0x7fff_ffff {
        s - 0x1_0000_0000
    } else if s < -0x8000_0000 {
        s + 0x1_0000_0000
    } else {
        s
    };
    if v < 0 {
        0
    } else {
        v as i32
    }
}

/// The counts that a title's rank gives: each run read as a number (0 when
/// it does not read as one); (0, 0) without a rank.
pub open spec fn rank_counts(cap: Option<(Seq<char>, Seq<char>)>) -> (i32, i32) {
    match cap {
        Some(c) => (
            match parse_i32(c.0) {
                Some(v) => v,
                None => 0,
            },
            match parse_i32(c.1) {
                Some(v) => v,
                None => 0,
            },
        ),
        None => (0, 0),
    }
}

/// The title with the rank of counts `p` and `n` in front of `rest`, unless
/// both are 0.
pub open spec fn ranked_title(rest: Seq<char>, p: i32, n: i32) -> Seq<char> {
    if p > 0 || n > 0 {
        "("@ + decimal(p as nat) + "+,"@ + decimal(n as nat) + "-) "@ + rest
    } else {
        rest
    }
}

/// "Rank: `p`+, `n`-".
pub open spec fn rank_message(p: i32, n: i32) -> Seq<char> {
    "Rank: "@ + decimal(p as nat) + "+, "@ + decimal(n as nat) + "-"@
}

/// The decimal numeral of `v` is a run of ASCII digits worth `v`.
proof fn lemma_decimal_digits(v: nat)
    ensures
        digit_run(decimal(v)),
        all_ascii_digits(decimal(v)),
        digits_value(decimal(v)) == v,
    decreases v,
{
    let d = decimal(v);
    if v < 10 {
        assert(d[0] == digit_char(v));
        assert(0x30 <= digit_char(v) as u32 <= 0x39);
        assert(digits_value(d) == 10 * digits_value(d.drop_last()) + (d.last() as u32 - 0x30));
        assert(d.drop_last() =~= Seq::<char>::empty());
    } else {
        lemma_decimal_digits(v / 10);
        let h = decimal(v / 10);
        assert(d == h.push(digit_char(v % 10)));
        assert(d.drop_last() =~= h);
        assert(0x30 <= digit_char(v % 10) as u32 <= 0x39);
        assert(digit_char(v % 10) as u32 - 0x30 == v % 10);
        assert forall|i: int| 0 <= i < d.len() implies is_decimal_digit(#[trigger] d[i]) && 0x30 <= d[i] as u32 <= 0x39 by {
            if i < h.len() {
                assert(d[i] == h[i]);
            }
        }
    }
}

/// A rank that the library writes reads back: the title with the rank of
/// counts `p` and `n` (not both 0) in front of `rest` has the rank text of
/// their numerals, counts `p` and `n`, and `rest` without it.
pub proof fn law_rank_reads_back(rest: Seq<char>, p: i32, n: i32)
    requires
        p >= 0,
        n >= 0,
        p > 0 || n > 0,
    ensures
        rank_capture(ranked_title(rest, p, n)) == Some((decimal(p as nat), decimal(n as nat))),
        rank_counts(rank_capture(ranked_title(rest, p, n))) == (p, n),
        unranked(ranked_title(rest, p, n)) == rest,
{
    let dp = decimal(p as nat);
    let dn = decimal(n as nat);
    let title = ranked_title(rest, p, n);
    lemma_decimal_digits(p as nat);
    lemma_decimal_digits(n as nat);
    assert(title =~= rank_text(dp, dn) + rest);
    assert(title.take(rank_text(dp, dn).len() as int) =~= rank_text(dp, dn));
    lemma_rank_capture_of(title, dp, dn);
    assert(title.skip(rank_text(dp, dn).len() as int) =~= rest);
    assert(dp[0] != '-' && dp[0] != '+');
    assert(dn[0] != '-' && dn[0] != '+');
}

/// The title without its rank.
pub open spec fn unranked(title: Seq<char>) -> Seq<char> {
    match rank_capture(title) {
        Some(c) => title.skip(rank_text(c.0, c.1).len() as int),
        None => title,
    }
}

/// `b` is `a` after the votes for (`dp`) and against (`dn`) in the active
/// node's rank changed: the tree recorded in the history, the counts read
/// from the title's rank (see [`rank_counts`]) changed (see
/// [`changed_count`]), the rank written anew in front of the rest of the
/// title, the message giving the counts. Without an active node nothing
/// changed.
pub open spec fn rank_modified(a: AppState, b: AppState, dp: i32, dn: i32) -> bool {
    &&& a.active_node_id is None ==> b == a
    &&& a.active_node_id matches Some(id) ==> {
        let title = title_of(a.tree_view(), id);
        let counts = rank_counts(rank_capture(title));
        let p = changed_count(counts.0, dp);
        let n = changed_count(counts.1, dn);
        &&& history_pushed(a, b)
        &&& b.tree_view() == with_title(a.tree_view(), id, ranked_title(unranked(title), p, n))
        &&& says(b.message, rank_message(p, n))
        &&& b == (AppState {
            tree: b.tree,
            history: b.history,
            history_index: b.history_index,
            message: b.message,
            ..a
        })
    }
}

/// Changes the votes for (`dp`) and against (`dn`) in the active node's
/// rank, after recording the tree in the undo history: the counts read from
/// the title's rank (see [`rank_counts`]) change, never going below zero,
/// and the rank is written anew in front of the rest of the title (none
/// when both are zero); the message gives the counts.
pub fn modify_rank(app: &mut AppState, dp: i32, dn: i32)
    requires
        old(app).wf(),
        old(app).active_ok(),
    ensures
        final(app).wf(),
        rank_modified(*old(app), *final(app), dp, dn),
{
    if let Some(active_id) = app.active_node_id {
        app.push_history();
        let node = arena_get_data(&app.tree, active_id).unwrap();
        let title = node.title.as_str();
        let cap = rank_captures(title);
        let (p0, n0, rest) = match cap {
            Some(c) => {
                let p0 = match parse_i32_exec(c.0.as_str()) {
                    Some(v) => v,
                    None => 0,
                };
                let n0 = match parse_i32_exec(c.1.as_str()) {
                    Some(v) => v,
                    None => 0,
                };
                (p0, n0, strip_rank(title))
            },
            None => (0, 0, crate::text::owned(title)),
        };
        let p = change_count(p0, dp);
        let n = change_count(n0, dn);
        let mut out: Vec<char> = Vec::new();
        if p > 0 || n > 0 {
            push_str(&mut out, "(");
            push_decimal(&mut out, p as usize);
            push_str(&mut out, "+,");
            push_decimal(&mut out, n as usize);
            push_str(&mut out, "-) ");
        }
        push_str(&mut out, rest.as_str());
        set_title(&mut app.tree, active_id, string_from_chars(&out));
        let mut msg: Vec<char> = Vec::new();
        push_str(&mut msg, "Rank: ");
        push_decimal(&mut msg, p as usize);
        push_str(&mut msg, "+, ");
        push_decimal(&mut msg, n as usize);
        push_str(&mut msg, "-");
        app.set_message(string_from_chars(&msg));
    }
}

/// One vote more for the active node (see [`rank_modified`]).
pub fn increase_positive_rank(app: &mut AppState)
    requires
        old(app).wf(),
        old(app).active_ok(),
    ensures
        final(app).wf(),
        rank_modified(*old(app), *final(app), 1, 0),
{
    modify_rank(app, 1, 0);
}

/// One vote less for the active node (see [`rank_modified`]).
pub fn decrease_positive_rank(app: &mut AppState)
    requires
        old(app).wf(),
        old(app).active_ok(),
    ensures
        final(app).wf(),
        rank_modified(*old(app), *final(app), -1i32, 0),
{
    modify_rank(app, -1, 0);
}

/// One vote more against the active node (see [`rank_modified`]).
pub fn increase_negative_rank(app: &mut AppState)
    requires
        old(app).wf(),
        old(app).active_ok(),
    ensures
        final(app).wf(),
        rank_modified(*old(app), *final(app), 0, 1),
{
    modify_rank(app, 0, 1);
}

/// One vote less against the active node (see [`rank_modified`]).
pub fn decrease_negative_rank(app: &mut AppState)
    requires
        old(app).wf(),
        old(app).active_ok(),
    ensures
        final(app).wf(),
        rank_modified(*old(app), *final(app), 0, -1i32),
{
    modify_rank(app, 0, -1);
}

} // verus!
