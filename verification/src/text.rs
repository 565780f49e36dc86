//! Character-level helpers shared by the parser, the exporters and the editor.
use vstd::prelude::*;

verus! {

/// The number of bytes of the UTF-8 encoding of `c` (what `char::len_utf8`
/// gives).
pub open spec fn utf8_len(c: char) -> nat {
    let v = c as u32;
    if v < 0x80 {
        1
    } else if v < 0x800 {
        2
    } else if v < 0x10000 {
        3
    } else {
        4
    }
}

/// The number of bytes of the UTF-8 encoding of `s` (what `str::len` gives).
pub open spec fn byte_len(s: Seq<char>) -> nat
    decreases s.len(),
{
    if s.len() == 0 {
        0
    } else {
        byte_len(s.drop_last()) + utf8_len(s.last())
    }
}

/// `char::len_utf8`.
pub fn char_utf8_len(c: char) -> (n: usize)
    ensures
        n == utf8_len(c),
{
    let v = c as u32;
    if v < 0x80 {
        1
    } else if v < 0x800 {
        2
    } else if v < 0x10000 {
        3
    } else {
        4
    }
}

/// White space as `char::is_whitespace` and `str::trim` know it: the
/// characters with Unicode's White_Space property.
pub open spec fn is_ws(c: char) -> bool {
    let v = c as u32;
    ||| 0x09 <= v <= 0x0D
    ||| v == 0x20
    ||| v == 0x85
    ||| v == 0xA0
    ||| v == 0x1680
    ||| 0x2000 <= v <= 0x200A
    ||| v == 0x2028
    ||| v == 0x2029
    ||| v == 0x202F
    ||| v == 0x205F
    ||| v == 0x3000
}

/// `char::is_whitespace`.
pub fn is_ws_char(c: char) -> (b: bool)
    ensures
        b == is_ws(c),
{
    let v = c as u32;
    (0x09 <= v && v <= 0x0D) || v == 0x20 || v == 0x85 || v == 0xA0 || v == 0x1680 || (0x2000 <= v
        && v <= 0x200A) || v == 0x2028 || v == 0x2029 || v == 0x202F || v == 0x205F || v == 0x3000
}

/// The number of white space characters that `s` starts with.
pub open spec fn lead_ws(s: Seq<char>) -> nat
    decreases s.len(),
{
    if s.len() > 0 && is_ws(s[0]) {
        1 + lead_ws(s.drop_first())
    } else {
        0
    }
}

/// The number of white space characters that `s` ends with.
pub open spec fn trail_ws(s: Seq<char>) -> nat
    decreases s.len(),
{
    if s.len() > 0 && is_ws(s.last()) {
        1 + trail_ws(s.drop_last())
    } else {
        0
    }
}

/// `s` without its leading white space (`str::trim_start`).
pub open spec fn trim_start(s: Seq<char>) -> Seq<char> {
    s.skip(lead_ws(s) as int)
}

/// `s` without its leading and trailing white space (`str::trim`).
pub open spec fn trim(s: Seq<char>) -> Seq<char> {
    let t = trim_start(s);
    t.take(t.len() - trail_ws(t))
}

/// `lead_ws(s)` is the position of the first character that is not white
/// space.
pub proof fn lemma_lead_ws(s: Seq<char>, n: int)
    requires
        0 <= n <= s.len(),
        forall|k: int| 0 <= k < n ==> is_ws(#[trigger] s[k]),
        n == s.len() || !is_ws(s[n]),
    ensures
        lead_ws(s) == n,
    decreases n,
{
    if n > 0 {
        let t = s.drop_first();
        assert forall|k: int| 0 <= k < n - 1 implies is_ws(#[trigger] t[k]) by {
            assert(t[k] == s[k + 1]);
        }
        if n - 1 < t.len() {
            assert(t[n - 1] == s[n]);
        }
        lemma_lead_ws(t, n - 1);
    }
}

/// `trail_ws(s)` is the number of characters after the last one that is not
/// white space.
pub proof fn lemma_trail_ws(s: Seq<char>, n: int)
    requires
        0 <= n <= s.len(),
        forall|k: int| n <= k < s.len() ==> is_ws(#[trigger] s[k]),
        n == 0 || !is_ws(s[n - 1]),
    ensures
        trail_ws(s) == s.len() - n,
    decreases s.len() - n,
{
    if n < s.len() {
        let t = s.drop_last();
        assert forall|k: int| n <= k < t.len() implies is_ws(#[trigger] t[k]) by {
            assert(t[k] == s[k]);
        }
        if n > 0 {
            assert(t[n - 1] == s[n - 1]);
        }
        assert(is_ws(s[s.len() - 1]));
        lemma_trail_ws(t, n);
    }
}

/// The position of the first character at or after `from` that is not white
/// space (or the length).
pub fn skip_ws(v: &Vec<char>, from: usize) -> (end: usize)
    requires
        from <= v@.len(),
    ensures
        from <= end <= v@.len(),
        end - from == lead_ws(v@.subrange(from as int, v@.len() as int)),
{
    let n = v.len();
    let mut i = from;
    while i < n && is_ws_char(v[i])
        invariant
            n == v@.len(),
            from <= i <= n,
            forall|k: int| from <= k < i ==> is_ws(#[trigger] v@[k]),
        decreases n - i,
    {
        i = i + 1;
    }
    proof {
        let s = v@.subrange(from as int, n as int);
        assert forall|k: int| 0 <= k < i - from implies is_ws(#[trigger] s[k]) by {
            assert(s[k] == v@[from + k]);
        }
        if i < n {
            assert(s[i - from] == v@[i as int]);
        }
        lemma_lead_ws(s, i - from);
    }
    i
}

/// The position right after the last character before `to` that is not
/// white space (or 0).
pub fn skip_ws_back(v: &Vec<char>, to: usize) -> (start: usize)
    requires
        to <= v@.len(),
    ensures
        start <= to,
        to - start == trail_ws(v@.take(to as int)),
{
    let mut i = to;
    while i > 0 && is_ws_char(v[i - 1])
        invariant
            i <= to <= v@.len(),
            forall|k: int| i <= k < to ==> is_ws(#[trigger] v@[k]),
        decreases i,
    {
        i = i - 1;
    }
    proof {
        let s = v@.take(to as int);
        assert forall|k: int| i <= k < s.len() implies is_ws(#[trigger] s[k]) by {
            assert(s[k] == v@[k]);
        }
        if i > 0 {
            assert(s[i - 1] == v@[i - 1]);
        }
        lemma_trail_ws(s, i as int);
    }
    i
}

/// The characters of `v` from `a` up to `b`.
pub fn copy_range(v: &Vec<char>, a: usize, b: usize) -> (r: Vec<char>)
    requires
        a <= b <= v@.len(),
    ensures
        r@ == v@.subrange(a as int, b as int),
{
    let mut r: Vec<char> = Vec::new();
    let mut i = a;
    while i < b
        invariant
            a <= i <= b <= v@.len(),
            r@ == v@.subrange(a as int, i as int),
        decreases b - i,
    {
        r.push(v[i]);
        i = i + 1;
        assert(r@ =~= v@.subrange(a as int, i as int));
    }
    r
}

/// `str::trim` on characters.
pub fn trim_chars(v: &Vec<char>) -> (r: Vec<char>)
    ensures
        r@ == trim(v@),
{
    let a = skip_ws(v, 0);
    let b = skip_ws_back(v, v.len());
    proof {
        assert(v@.subrange(0, v@.len() as int) =~= v@);
        assert(v@.take(v@.len() as int) =~= v@);
    }
    if b <= a {
        proof {
            let t = trim_start(v@);
            // everything from `a` on is white space
            assert forall|k: int| 0 <= k < t.len() implies is_ws(#[trigger] t[k]) by {
                assert(t[k] == v@[a + k]);
                lemma_ws_after_last(v@, b as int, a + k);
            }
            lemma_trail_ws(t, 0);
            assert(trim(v@) =~= Seq::<char>::empty());
        }
        Vec::new()
    } else {
        proof {
            let t = trim_start(v@);
            assert forall|k: int| b - a <= k < t.len() implies is_ws(#[trigger] t[k]) by {
                assert(t[k] == v@[a + k]);
                lemma_ws_after_last(v@, b as int, a + k);
            }
            assert(t[b - a - 1] == v@[b - 1]);
            lemma_ws_after_last(v@, b as int, b - 1);
            lemma_trail_ws(t, b - a);
            assert(trim(v@) =~= v@.subrange(a as int, b as int));
        }
        copy_range(v, a, b)
    }
}

/// Past `b` = len - trail_ws, every character is white space; at `b - 1` there
/// is one that is not.
proof fn lemma_ws_after_last(s: Seq<char>, b: int, k: int)
    requires
        s.len() - b == trail_ws(s),
        0 <= k < s.len(),
    ensures
        k >= b ==> is_ws(s[k]),
        k == b - 1 ==> !is_ws(s[k]),
    decreases s.len(),
{
    if s.len() > 0 && is_ws(s.last()) {
        if k < s.len() - 1 {
            assert(s.drop_last()[k] == s[k]);
            lemma_ws_after_last(s.drop_last(), b, k);
        }
    }
}

/// `str::len`: the number of bytes of the UTF-8 encoding of `s`, which, as
/// for every value in memory, is at most `isize::MAX`.
#[verifier::external_body]
pub(crate) fn str_byte_len(s: &str) -> (n: usize)
    ensures
        n == byte_len(s@),
        n <= isize::MAX,
{
    s.len()
}

/// The characters of `s`, in order.
pub fn chars_of(s: &str) -> (v: Vec<char>)
    ensures
        v@ == s@,
{
    broadcast use vstd::string::axiom_spec_iter;
    let mut v: Vec<char> = Vec::new();
    for c in it: s.chars()
        invariant
            it.seq() == s@,
            v@ == s@.take(it.index() as int),
    {
        v.push(c);
        assert(v@ =~= s@.take(it.index() + 1));
    }
    assert(v@ =~= s@);
    v
}

/// `Iterator::collect` of chars into a `String`: the string of these characters.
#[verifier::external_body]
pub(crate) fn string_from_chars(v: &Vec<char>) -> (s: String)
    ensures
        s@ == v@,
{
    v.iter().collect()
}

/// `str::to_owned`: an owned copy of `s`.
pub fn owned(s: &str) -> (r: String)
    ensures
        r@ == s@,
{
    s.to_owned()
}

/// Appends the characters of the string `s` to `v`.
pub fn push_str(v: &mut Vec<char>, s: &str)
    ensures
        final(v)@ == old(v)@ + s@,
{
    let cs = chars_of(s);
    push_all(v, &cs);
}

/// Appends the characters of `s` to `v`.
pub fn push_all(v: &mut Vec<char>, s: &Vec<char>)
    ensures
        final(v)@ == old(v)@ + s@,
{
    let mut i: usize = 0;
    while i < s.len()
        invariant
            0 <= i <= s@.len(),
            v@ == old(v)@ + s@.subrange(0, i as int),
        decreases s@.len() - i,
    {
        v.push(s[i]);
        i = i + 1;
        assert(v@ =~= old(v)@ + s@.subrange(0, i as int));
    }
    assert(s@.subrange(0, s@.len() as int) =~= s@);
}

/// `String::push`: appends `c`.
#[verifier::external_body]
pub(crate) fn string_push(s: &mut String, c: char)
    ensures
        final(s)@ == old(s)@.push(c),
{
    s.push(c)
}

/// `String::pop`: removes and returns the last character, if any.
#[verifier::external_body]
pub(crate) fn string_pop(s: &mut String) -> (c: Option<char>)
    ensures
        old(s)@.len() == 0 ==> c is None && final(s)@ == old(s)@,
        old(s)@.len() > 0 ==> c == Some(old(s)@.last()) && final(s)@ == old(s)@.drop_last(),
{
    s.pop()
}

/// The decimal digit for `d` (below ten).
pub open spec fn digit_char(d: nat) -> char {
    if d == 0 { '0' } else if d == 1 { '1' } else if d == 2 { '2' } else if d == 3 { '3' }
    else if d == 4 { '4' } else if d == 5 { '5' } else if d == 6 { '6' } else if d == 7 { '7' }
    else if d == 8 { '8' } else { '9' }
}

/// The decimal numeral of `n`, without leading zeros.
pub open spec fn decimal(n: nat) -> Seq<char>
    decreases n,
{
    if n < 10 {
        seq![digit_char(n)]
    } else {
        decimal(n / 10).push(digit_char(n % 10))
    }
}

/// Appends the decimal numeral of `n` to `v`.
pub fn push_decimal(v: &mut Vec<char>, n: usize)
    ensures
        final(v)@ == old(v)@ + decimal(n as nat),
    decreases n,
{
    if n >= 10 {
        push_decimal(v, n / 10);
    }
    let d = n % 10;
    let c = if d == 0 { '0' } else if d == 1 { '1' } else if d == 2 { '2' } else if d == 3 { '3' }
    else if d == 4 { '4' } else if d == 5 { '5' } else if d == 6 { '6' } else if d == 7 { '7' }
    else if d == 8 { '8' } else { '9' };
    v.push(c);
    proof {
        if n >= 10 {
            assert(old(v)@ + decimal(n as nat) =~= old(v)@ + decimal((n / 10) as nat) + seq![c]);
        } else {
            assert(old(v)@ + decimal(n as nat) =~= old(v)@ + seq![c]);
        }
    }
}

/// `needle` occurs in `hay` as a run of consecutive characters (an empty
/// needle occurs everywhere).
pub open spec fn contains_seq(hay: Seq<char>, needle: Seq<char>) -> bool {
    exists|i: int| 0 <= i <= hay.len() - needle.len() && #[trigger] hay.subrange(i, i + needle.len()) == needle
}

/// `needle` occurs at position `i` of `hay`.
fn occurs_at(hay: &Vec<char>, needle: &Vec<char>, i: usize) -> (b: bool)
    requires
        i + needle@.len() <= hay@.len(),
    ensures
        b == (hay@.subrange(i as int, i + needle@.len()) == needle@),
{
    let hl = hay.len();
    let mut j: usize = 0;
    while j < needle.len()
        invariant
            hl == hay@.len(),
            i + needle@.len() <= hay@.len(),
            0 <= j <= needle@.len(),
            forall|k: int| 0 <= k < j ==> hay@[i + k] == needle@[k],
        decreases needle@.len() - j,
    {
        if hay[i + j] != needle[j] {
            assert(hay@.subrange(i as int, i + needle@.len())[j as int] != needle@[j as int]);
            return false;
        }
        j = j + 1;
    }
    assert(hay@.subrange(i as int, i + needle@.len()) =~= needle@);
    true
}

/// Whether `needle` occurs in `hay` (what `str::contains` answers).
pub fn seq_contains(hay: &Vec<char>, needle: &Vec<char>) -> (b: bool)
    ensures
        b == contains_seq(hay@, needle@),
{
    let hl = hay.len();
    if needle.len() > hl {
        return false;
    }
    if needle.len() == 0 {
        assert(hay@.subrange(0, 0 + needle@.len() as int) =~= needle@);
        return true;
    }
    let last = hl - needle.len();
    let mut i: usize = 0;
    while i <= last
        invariant
            hl == hay@.len(),
            needle@.len() > 0,
            last == hay@.len() - needle@.len(),
            0 <= i <= last + 1,
            forall|k: int| 0 <= k < i ==> #[trigger] hay@.subrange(k, k + needle@.len()) != needle@,
        decreases last + 1 - i,
    {
        if occurs_at(hay, needle, i) {
            return true;
        }
        i = i + 1;
    }
    false
}

/// `n` copies of `c`.
pub open spec fn repeat_char(c: char, n: nat) -> Seq<char> {
    Seq::new(n, |i: int| c)
}

/// Appends `n` copies of `c` to `v`.
pub fn push_repeat(v: &mut Vec<char>, c: char, n: usize)
    ensures
        final(v)@ == old(v)@ + repeat_char(c, n as nat),
{
    let mut i: usize = 0;
    while i < n
        invariant
            0 <= i <= n,
            v@ == old(v)@ + repeat_char(c, i as nat),
        decreases n - i,
    {
        v.push(c);
        i = i + 1;
        assert(v@ =~= old(v)@ + repeat_char(c, i as nat));
    }
}

/// One more character adds the bytes of its encoding.
pub proof fn lemma_byte_len_take(s: Seq<char>, k: int)
    requires
        0 <= k < s.len(),
    ensures
        byte_len(s.take(k + 1)) == byte_len(s.take(k)) + utf8_len(s[k]),
{
    assert(s.take(k + 1).drop_last() =~= s.take(k));
}

/// A longer prefix has more bytes (each character has at least one).
pub proof fn lemma_byte_len_mono(s: Seq<char>, a: int, b: int)
    requires
        0 <= a <= b <= s.len(),
    ensures
        byte_len(s.take(a)) + (b - a) <= byte_len(s.take(b)),
    decreases b - a,
{
    if a < b {
        lemma_byte_len_take(s, b - 1);
        lemma_byte_len_mono(s, a, b - 1);
    }
}

/// A prefix has no more bytes than the whole.
pub proof fn lemma_prefix_bytes(s: Seq<char>, b: int)
    requires
        0 <= b <= s.len(),
    ensures
        byte_len(s.take(b)) <= byte_len(s),
{
    lemma_byte_len_mono(s, b, s.len() as int);
    assert(s.take(s.len() as int) =~= s);
}

/// `b` is the byte offset of a character boundary of `s`: the start of a
/// character, or the end.
pub open spec fn is_boundary(s: Seq<char>, b: int) -> bool {
    exists|k: int| 0 <= k <= s.len() && #[trigger] byte_len(s.take(k)) == b
}

/// The index of the character that starts at byte `b` of `s`.
pub open spec fn char_index(s: Seq<char>, b: int) -> int {
    choose|k: int| 0 <= k <= s.len() && #[trigger] byte_len(s.take(k)) == b
}

/// The start of character `k` is a boundary, and `k` is the character there.
pub proof fn lemma_char_index(s: Seq<char>, k: int)
    requires
        0 <= k <= s.len(),
    ensures
        is_boundary(s, byte_len(s.take(k)) as int),
        char_index(s, byte_len(s.take(k)) as int) == k,
        byte_len(s.take(k)) <= byte_len(s),
{
    let b = byte_len(s.take(k)) as int;
    assert(is_boundary(s, b));
    let j = char_index(s, b);
    if j < k {
        lemma_byte_len_mono(s, j, k);
    } else if j > k {
        lemma_byte_len_mono(s, k, j);
    }
    lemma_prefix_bytes(s, k);
}

/// The index of the character that starts at byte `b`, if `b` is a
/// boundary.
pub fn locate(v: &Vec<char>, b: usize) -> (r: Option<usize>)
    ensures
        r is Some <==> is_boundary(v@, b as int),
        r matches Some(k) ==> k <= v@.len() && char_index(v@, b as int) == k && byte_len(
            v@.take(k as int),
        ) == b,
{
    let n = v.len();
    let mut k: usize = 0;
    let mut sum: u128 = 0;
    assert(v@.take(0) =~= Seq::<char>::empty());
    while k < n && sum < b as u128
        invariant
            n == v@.len(),
            k <= n,
            sum == byte_len(v@.take(k as int)),
            sum <= b + 4,
            k > 0 ==> byte_len(v@.take(k - 1)) < b,
        decreases n - k,
    {
        proof {
            lemma_byte_len_take(v@, k as int);
        }
        let w = char_utf8_len(v[k]);
        sum = sum + w as u128;
        k = k + 1;
    }
    if sum == b as u128 {
        proof {
            lemma_char_index(v@, k as int);
        }
        Some(k)
    } else {
        proof {
            if is_boundary(v@, b as int) {
                let j = char_index(v@, b as int);
                if j < k {
                    lemma_byte_len_mono(v@, j, k - 1);
                } else if j > k {
                    lemma_byte_len_mono(v@, k as int, j);
                }
            }
        }
        None
    }
}

} // verus!
