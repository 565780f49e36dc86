//! Reading a map from its text form: one node per line, children indented
//! below their parent, with tabs, spaces, "* " and "- " list markers and "•"
//! bullets all accepted.
use crate::model::Node;
use crate::text::{byte_len, char_utf8_len, chars_of, copy_range, lead_ws, skip_ws, string_from_chars, trim, trim_chars};
use crate::tree::{after_append, arena_new, arena_new_node, arena_nodes, arena_ok, arena_order, arena_slots, node_append, slots_of, tree_wf, TreeView};
use indextree::{Arena, NodeId};
use vstd::prelude::*;

verus! {

// ---------------------------------------------------------------------------
// Lines
// ---------------------------------------------------------------------------

/// The pieces of `s` between its newline characters: one more piece than
/// there are newlines.
pub open spec fn split_newlines(s: Seq<char>) -> Seq<Seq<char>>
    decreases s.len(),
{
    if s.len() == 0 {
        seq![Seq::empty()]
    } else {
        let p = split_newlines(s.drop_last());
        if s.last() == '\n' {
            p.push(Seq::empty())
        } else {
            p.update(p.len() - 1, p.last().push(s.last()))
        }
    }
}

/// `line` without one trailing carriage return.
pub open spec fn strip_cr(line: Seq<char>) -> Seq<char> {
    if line.len() > 0 && line.last() == '\r' {
        line.drop_last()
    } else {
        line
    }
}

/// The lines of `s`, as `str::lines` gives them: the pieces ended by a
/// newline lose it and one carriage return before it; a last piece without a
/// newline is kept as it is when it is not empty.
pub open spec fn lines_of(s: Seq<char>) -> Seq<Seq<char>> {
    let p = split_newlines(s);
    let ended = p.drop_last().map_values(|l: Seq<char>| strip_cr(l));
    if p.last().len() == 0 {
        ended
    } else {
        ended.push(p.last())
    }
}

pub proof fn lemma_split_nonempty(s: Seq<char>)
    ensures
        split_newlines(s).len() >= 1,
    decreases s.len(),
{
    if s.len() > 0 {
        lemma_split_nonempty(s.drop_last());
    }
}

/// The views of a vector of lines.
pub open spec fn line_views(v: Seq<Vec<char>>) -> Seq<Seq<char>> {
    v.map_values(|l: Vec<char>| l@)
}

/// Splits `s` into its lines (`str::lines`).
pub fn split_lines(s: &Vec<char>) -> (lines: Vec<Vec<char>>)
    ensures
        line_views(lines@) == lines_of(s@),
{
    let n = s.len();
    let mut done: Vec<Vec<char>> = Vec::new();
    let mut cur: Vec<char> = Vec::new();
    let mut i: usize = 0;
    proof {
        assert(s@.take(0) =~= Seq::<char>::empty());
        assert(line_views(done@) =~= split_newlines(s@.take(0)).drop_last().map_values(
            |l: Seq<char>| strip_cr(l),
        ));
    }
    while i < n
        invariant
            n == s@.len(),
            0 <= i <= n,
            split_newlines(s@.take(i as int)).len() >= 1,
            cur@ == split_newlines(s@.take(i as int)).last(),
            line_views(done@) == split_newlines(s@.take(i as int)).drop_last().map_values(
                |l: Seq<char>| strip_cr(l),
            ),
        decreases n - i,
    {
        let c = s[i];
        let ghost p = split_newlines(s@.take(i as int));
        proof {
            assert(s@.take(i + 1).drop_last() =~= s@.take(i as int));
            assert(s@.take(i + 1).last() == c);
        }
        if c == '\n' {
            let mut line = cur;
            let k = line.len();
            if k > 0 && line[k - 1] == '\r' {
                line.pop();
            }
            proof {
                assert(line@ == strip_cr(p.last()));
            }
            let ghost before = line_views(done@);
            done.push(line);
            cur = Vec::new();
            proof {
                let q = split_newlines(s@.take(i + 1));
                assert(q == p.push(Seq::empty()));
                assert(q.drop_last() =~= p);
                let want = q.drop_last().map_values(|l: Seq<char>| strip_cr(l));
                assert(before.len() == p.len() - 1);
                assert(done@.len() == before.len() + 1);
                assert(line_views(done@).len() == done@.len());
                assert(want.len() == p.len());
                assert(line_views(done@).len() == want.len());
                assert forall|k: int| 0 <= k < want.len() implies line_views(done@)[k] == want[k] by {
                    if k < want.len() - 1 {
                        assert(line_views(done@)[k] == before[k]);
                        assert(p.drop_last()[k] == p[k]);
                    }
                }
                assert(line_views(done@) =~= want);
            }
        } else {
            cur.push(c);
            proof {
                let q = split_newlines(s@.take(i + 1));
                assert(q == p.update(p.len() - 1, p.last().push(c)));
                assert(q.drop_last() =~= p.drop_last());
                assert(cur@ == q.last());
            }
        }
        i = i + 1;
    }
    proof {
        assert(s@.take(n as int) =~= s@);
    }
    if cur.len() > 0 {
        done.push(cur);
        proof {
            assert(line_views(done@) =~= lines_of(s@));
        }
    }
    done
}

// ---------------------------------------------------------------------------
// Entries: what each line gives
// ---------------------------------------------------------------------------

/// A line with its bullets ('•') turned into '*' and each tab into two
/// spaces.
pub open spec fn clean_line(l: Seq<char>) -> Seq<char>
    decreases l.len(),
{
    if l.len() == 0 {
        Seq::empty()
    } else {
        let r = clean_line(l.drop_last());
        if l.last() == '\t' {
            r + seq![' ', ' ']
        } else if l.last() == '•' {
            r.push('*')
        } else {
            r.push(l.last())
        }
    }
}

/// `t` starts with a list marker: "* " or "- ".
pub open spec fn has_marker(t: Seq<char>) -> bool {
    t.len() >= 2 && (t[0] == '*' || t[0] == '-') && t[1] == ' '
}

/// The entry that a line gives: the width of its indentation in bytes, and
/// its title; none for a line without text. A list marker counts as two
/// columns of indentation and is not part of the title.
pub open spec fn line_entry(l: Seq<char>) -> Option<(nat, Seq<char>)> {
    let c = clean_line(l);
    let lead = lead_ws(c) as int;
    let t = c.skip(lead);
    let indent = byte_len(c.take(lead));
    if has_marker(t) {
        let r = t.skip(2);
        let title = trim(r);
        if title.len() == 0 {
            None
        } else {
            Some((indent + 2 + byte_len(r.take(lead_ws(r) as int)), title))
        }
    } else {
        let title = trim(c);
        if title.len() == 0 {
            None
        } else {
            Some((indent, title))
        }
    }
}

/// The entries of the lines, in order, skipping lines without text.
pub open spec fn entries_of(lines: Seq<Seq<char>>) -> Seq<(nat, Seq<char>)>
    decreases lines.len(),
{
    if lines.len() == 0 {
        Seq::empty()
    } else {
        let r = entries_of(lines.drop_last());
        match line_entry(lines.last()) {
            Some(e) => r.push(e),
            None => r,
        }
    }
}

/// The entries of a text.
pub open spec fn parsed_entries(content: Seq<char>) -> Seq<(nat, Seq<char>)> {
    entries_of(lines_of(content))
}

/// Rewrites bullets and tabs.
fn clean(l: &Vec<char>) -> (c: Vec<char>)
    ensures
        c@ == clean_line(l@),
{
    let n = l.len();
    let mut c: Vec<char> = Vec::new();
    let mut i: usize = 0;
    while i < n
        invariant
            n == l@.len(),
            0 <= i <= n,
            c@ == clean_line(l@.take(i as int)),
        decreases n - i,
    {
        let x = l[i];
        proof {
            assert(l@.take(i + 1).drop_last() =~= l@.take(i as int));
            assert(l@.take(i + 1).last() == x);
        }
        if x == '\t' {
            c.push(' ');
            c.push(' ');
            proof {
                assert(c@ =~= clean_line(l@.take(i as int)) + seq![' ', ' ']);
            }
        } else if x == '•' {
            c.push('*');
        } else {
            c.push(x);
        }
        i = i + 1;
    }
    proof {
        assert(l@.take(n as int) =~= l@);
    }
    c
}

/// The number of bytes of the characters of `v` from `a` up to `b`.
fn bytes_between(v: &Vec<char>, a: usize, b: usize) -> (n: u128)
    requires
        a <= b <= v@.len(),
    ensures
        n == byte_len(v@.subrange(a as int, b as int)),
        n <= 4 * (b - a),
{
    let mut n: u128 = 0;
    let mut i = a;
    proof {
        assert(v@.subrange(a as int, a as int) =~= Seq::<char>::empty());
    }
    while i < b
        invariant
            a <= i <= b <= v@.len(),
            n == byte_len(v@.subrange(a as int, i as int)),
            n <= 4 * (i - a),
        decreases b - i,
    {
        let w = char_utf8_len(v[i]);
        proof {
            assert(v@.subrange(a as int, i + 1).drop_last() =~= v@.subrange(a as int, i as int));
        }
        n = n + w as u128;
        i = i + 1;
    }
    n
}

/// The entry of one line.
fn entry_of_line(l: &Vec<char>) -> (r: Option<(u128, Vec<char>)>)
    ensures
        r is Some <==> line_entry(l@) is Some,
        r matches Some(e) ==> line_entry(l@) == Some((e.0 as nat, e.1@)),
{
    let c = clean(l);
    let n = c.len();
    let lead = skip_ws(&c, 0);
    proof {
        assert(c@.subrange(0, n as int) =~= c@);
        assert(c@.subrange(0, lead as int) =~= c@.take(lead as int));
        assert(c@.subrange(lead as int, n as int) =~= c@.skip(lead as int));
    }
    let indent = bytes_between(&c, 0, lead);
    if lead < n && n - lead >= 2 && (c[lead] == '*' || c[lead] == '-') && c[lead + 1] == ' ' {
        let ghost t = c@.skip(lead as int);
        proof {
            assert(t[0] == c@[lead as int]);
            assert(t[1] == c@[lead + 1]);
        }
        let rest = copy_range(&c, lead + 2, n);
        proof {
            assert(rest@ =~= t.skip(2));
        }
        let lead2 = skip_ws(&rest, 0);
        proof {
            assert(rest@.subrange(0, rest@.len() as int) =~= rest@);
            assert(rest@.subrange(0, lead2 as int) =~= rest@.take(lead2 as int));
        }
        let extra = bytes_between(&rest, 0, lead2);
        let title = trim_chars(&rest);
        if title.len() == 0 {
            None
        } else {
            Some((indent + 2 + extra, title))
        }
    } else {
        proof {
            let t = c@.skip(lead as int);
            if t.len() >= 2 {
                assert(t[0] == c@[lead as int]);
                assert(t[1] == c@[lead + 1]);
            }
        }
        let title = trim_chars(&c);
        if title.len() == 0 {
            None
        } else {
            Some((indent, title))
        }
    }
}

/// The entries of the lines of a text, with their raw indentation.
fn collect_entries(lines: &Vec<Vec<char>>) -> (es: Vec<(u128, Vec<char>)>)
    ensures
        es@.len() == entries_of(line_views(lines@)).len(),
        forall|k: int|
            0 <= k < es@.len() ==> entries_of(line_views(lines@))[k] == (
                (#[trigger] es@[k]).0 as nat,
                es@[k].1@,
            ),
{
    let n = lines.len();
    let mut es: Vec<(u128, Vec<char>)> = Vec::new();
    let mut i: usize = 0;
    while i < n
        invariant
            n == lines@.len(),
            0 <= i <= n,
            es@.len() == entries_of(line_views(lines@).take(i as int)).len(),
            forall|k: int|
                0 <= k < es@.len() ==> entries_of(line_views(lines@).take(i as int))[k] == (
                (#[trigger] es@[k]).0 as nat,
                es@[k].1@,
            ),
        decreases n - i,
    {
        let e = entry_of_line(&lines[i]);
        let ghost ls = line_views(lines@);
        proof {
            assert(ls.take(i + 1).drop_last() =~= ls.take(i as int));
            assert(ls.take(i + 1).last() == lines@[i as int]@);
        }
        match e {
            Some(x) => {
                es.push(x);
            },
            None => {},
        }
        i = i + 1;
    }
    proof {
        assert(line_views(lines@).take(n as int) =~= line_views(lines@));
    }
    es
}

// ---------------------------------------------------------------------------
// The tree of the entries
// ---------------------------------------------------------------------------

/// The entry that entry `k` hangs under, among entries `0 .. j`: the last
/// one with a smaller indentation; none when there is none (entry `k` is on
/// the top level).
pub open spec fn parent_among(e: Seq<(nat, Seq<char>)>, k: int, j: int) -> Option<int>
    decreases j,
{
    if j <= 0 {
        None
    } else if e[j - 1].0 < e[k].0 {
        Some(j - 1)
    } else {
        parent_among(e, k, j - 1)
    }
}

/// The entry that entry `k` hangs under: the last earlier entry that is
/// indented less.
pub open spec fn entry_parent(e: Seq<(nat, Seq<char>)>, k: int) -> Option<int> {
    parent_among(e, k, k)
}

/// The entries among the first `n` that hang under `p` (under nothing, for
/// `None`), in order.
pub open spec fn entry_children(e: Seq<(nat, Seq<char>)>, p: Option<int>, n: int) -> Seq<int>
    decreases n,
{
    if n <= 0 {
        Seq::empty()
    } else {
        let r = entry_children(e, p, n - 1);
        if entry_parent(e, n - 1) == p {
            r.push(n - 1)
        } else {
            r
        }
    }
}

/// The title of the node over the top-level entries.
pub open spec fn top_title() -> Seq<char> {
    seq!['r', 'o', 'o', 't']
}

/// The title of the node of a map made from a text without entries.
pub open spec fn empty_map_title() -> Seq<char> {
    seq!['N', 'e', 'w', ' ', 'M', 'i', 'n', 'd', ' ', 'M', 'a', 'p']
}

/// The node of entry `p` (of `top` for none).
pub open spec fn node_of(top: NodeId, ids: Seq<NodeId>, p: Option<int>) -> NodeId {
    match p {
        Some(j) => ids[j],
        None => top,
    }
}

/// The nodes of the entries `ks`.
pub open spec fn nodes_of(ids: Seq<NodeId>, ks: Seq<int>) -> Seq<NodeId> {
    ks.map_values(|k: int| ids[k])
}

/// `t` holds the first `n` entries of `e`: `ids[k]` is the node of entry `k`
/// (titled by it, expanded, visible), under the node of its parent entry,
/// and `top` (titled "root") stands over the top-level entries; children
/// come in the order of their lines.
pub open spec fn holds_entries(
    t: TreeView,
    e: Seq<(nat, Seq<char>)>,
    top: NodeId,
    ids: Seq<NodeId>,
    n: int,
) -> bool {
    &&& 0 <= n <= e.len()
    &&& ids.len() == n
    &&& ids.no_duplicates()
    &&& !ids.contains(top)
    &&& t.dom() == ids.to_set().insert(top)
    &&& t[top] == ((top_title(), false, false), None::<NodeId>, nodes_of(ids, entry_children(e, None, n)))
    &&& forall|k: int|
        #![trigger ids[k]]
        0 <= k < n ==> t[ids[k]] == (
            (e[k].1, false, false),
            Some(node_of(top, ids, entry_parent(e, k))),
            nodes_of(ids, entry_children(e, Some(k), n)),
        )
}

/// The node a parsed map is shown from: the only top-level entry when there
/// is exactly one, else the node over them.
pub open spec fn parse_root(e: Seq<(nat, Seq<char>)>, top: NodeId, ids: Seq<NodeId>) -> NodeId {
    let f = entry_children(e, None, e.len() as int);
    if f.len() == 1 {
        ids[f[0]]
    } else {
        top
    }
}

pub proof fn lemma_parent_below(e: Seq<(nat, Seq<char>)>, k: int, j: int)
    ensures
        parent_among(e, k, j) matches Some(x) ==> 0 <= x < j && e[x].0 < e[k].0,
    decreases j,
{
    if j > 0 {
        lemma_parent_below(e, k, j - 1);
    }
}

/// The parent of entry `k` among `0 .. j` is `x` (none for -1) when `x` is
/// indented less than `k` and every entry between them is not.
pub proof fn lemma_parent_among(e: Seq<(nat, Seq<char>)>, k: int, j: int, x: int)
    requires
        0 <= j <= e.len(),
        0 <= k < e.len(),
        -1 <= x < j,
        x >= 0 ==> e[x].0 < e[k].0,
        forall|m: int| x < m < j ==> e[m].0 >= e[k].0,
    ensures
        parent_among(e, k, j) == (if x < 0 {
            None
        } else {
            Some(x)
        }),
    decreases j,
{
    if j > 0 && j - 1 != x {
        lemma_parent_among(e, k, j - 1, x);
    }
}

pub proof fn lemma_children_below(e: Seq<(nat, Seq<char>)>, p: Option<int>, n: int)
    ensures
        forall|a: int|
            0 <= a < entry_children(e, p, n).len() ==> 0 <= #[trigger] entry_children(e, p, n)[a] < n,
    decreases n,
{
    if n > 0 {
        lemma_children_below(e, p, n - 1);
        let r = entry_children(e, p, n - 1);
        assert forall|a: int| 0 <= a < entry_children(e, p, n).len() implies 0
            <= #[trigger] entry_children(e, p, n)[a] < n by {
            if a < r.len() {
                assert(entry_children(e, p, n)[a] == r[a]);
            }
        }
    }
}

pub proof fn lemma_no_children_yet(e: Seq<(nat, Seq<char>)>, j: int, n: int)
    requires
        n <= j + 1,
    ensures
        entry_children(e, Some(j), n).len() == 0,
    decreases n,
{
    if n > 0 {
        lemma_parent_below(e, n - 1, n - 1);
        lemma_no_children_yet(e, j, n - 1);
    }
}

/// Nodes of entries below `n` do not change when an id is added at `n`.
proof fn lemma_nodes_of_push(ids: Seq<NodeId>, id: NodeId, ks: Seq<int>)
    requires
        forall|a: int| 0 <= a < ks.len() ==> 0 <= #[trigger] ks[a] < ids.len(),
    ensures
        nodes_of(ids.push(id), ks) == nodes_of(ids, ks),
        nodes_of(ids.push(id), ks.push(ids.len() as int)) == nodes_of(ids, ks).push(id),
{
    assert(nodes_of(ids.push(id), ks) =~= nodes_of(ids, ks));
    assert(nodes_of(ids.push(id), ks.push(ids.len() as int)) =~= nodes_of(ids, ks).push(id));
}

/// Adding entry `i` as the last child of the node of its parent entry keeps
/// the tree holding the entries.
proof fn lemma_add_entry(t: TreeView, e: Seq<(nat, Seq<char>)>, top: NodeId, ids: Seq<NodeId>, i: int, id: NodeId)
    requires
        holds_entries(t, e, top, ids, i),
        i < e.len(),
        !t.contains_key(id),
    ensures
        holds_entries(
            after_append(
                t.insert(id, ((e[i].1, false, false), None, Seq::empty())),
                node_of(top, ids, entry_parent(e, i)),
                id,
            ),
            e,
            top,
            ids.push(id),
            i + 1,
        ),
{
    let par = node_of(top, ids, entry_parent(e, i));
    let t1 = t.insert(id, ((e[i].1, false, false), None, Seq::empty()));
    let t2 = after_append(t1, par, id);
    let ids2 = ids.push(id);
    lemma_parent_below(e, i, i);
    assert(ids.to_set().contains(par) || par == top) by {
        if let Some(j) = entry_parent(e, i) {
            assert(ids.to_set().contains(ids[j]));
        }
    }
    assert(t.contains_key(par));
    assert(!ids.contains(id)) by {
        if ids.contains(id) {
            let k = choose|k: int| 0 <= k < ids.len() && ids[k] == id;
            assert(ids.to_set().contains(ids[k]));
        }
    }
    assert(id != top);
    assert(ids2.no_duplicates());
    assert(!ids2.contains(top));
    assert forall|x: NodeId| ids2.to_set().contains(x) <==> ids.to_set().contains(x) || x == id by {
        if ids2.contains(x) {
            let k = choose|k: int| 0 <= k < ids2.len() && ids2[k] == x;
            if k < ids.len() {
                assert(ids[k] == x);
                assert(ids.contains(x));
            }
        }
        if ids.contains(x) {
            let k = choose|k: int| 0 <= k < ids.len() && ids[k] == x;
            assert(ids2[k] == x);
            assert(ids2.contains(x));
        }
        if x == id {
            assert(ids2[ids.len() as int] == x);
            assert(ids2.contains(x));
        }
    }
    assert(t2.dom() =~= ids2.to_set().insert(top));
    // the top node
    lemma_children_below(e, None, i);
    lemma_nodes_of_push(ids, id, entry_children(e, None, i));
    // every other node
    assert forall|k: int| #![trigger ids2[k]] 0 <= k < i + 1 implies t2[ids2[k]] == (
        (e[k].1, false, false),
        Some(node_of(top, ids2, entry_parent(e, k))),
        nodes_of(ids2, entry_children(e, Some(k), i + 1)),
    ) by {
        lemma_children_below(e, Some(k), i);
        lemma_nodes_of_push(ids, id, entry_children(e, Some(k), i));
        lemma_parent_below(e, k, k);
        if k == i {
            lemma_no_children_yet(e, i, i + 1);
            assert(nodes_of(ids2, entry_children(e, Some(k), i + 1)) =~= Seq::<NodeId>::empty());
        } else {
            assert(ids2[k] == ids[k]);
            assert(ids[k] != id);
            if let Some(j) = entry_parent(e, k) {
                assert(ids2[j] == ids[j]);
            }
            if ids[k] == par {
                assert(entry_parent(e, i) == Some(k)) by {
                    if let Some(j) = entry_parent(e, i) {
                        if j != k {
                            assert(ids[j] != ids[k]);
                        }
                    } else {
                        assert(ids.contains(ids[k]));
                    }
                }
            } else {
                assert(entry_parent(e, i) != Some(k));
            }
        }
    }
}

/// Entry `m` is indented at least as much as an entry of the stack `st` that
/// comes at or after it.
spec fn covered(e: Seq<(nat, Seq<char>)>, st: Seq<int>, m: int) -> bool {
    exists|q: int| 0 <= q < st.len() && m <= #[trigger] st[q] && e[st[q]].0 <= e[m].0
}

/// Builds the tree of the entries: a "root" node over the entries, each
/// entry under the last earlier one that is indented less.
fn build_tree(es: &Vec<(u128, Vec<char>)>, Ghost(e): Ghost<Seq<(nat, Seq<char>)>>) -> (r: (
    Arena<Node>,
    NodeId,
    Vec<NodeId>,
    Ghost<Seq<NodeId>>,
))
    requires
        e.len() == es@.len(),
        forall|k: int| 0 <= k < es@.len() ==> e[k] == ((#[trigger] es@[k]).0 as nat, es@[k].1@),
    ensures
        arena_ok(r.0),
        holds_entries(arena_nodes(r.0), e, r.1, r.3@, e.len() as int),
        r.2@ == nodes_of(r.3@, entry_children(e, None, e.len() as int)),
        arena_order(r.0) == slots_of(seq![r.1] + r.3@),
        arena_slots(r.0) == arena_nodes(r.0).dom().len(),
{
    let mut tree = arena_new();
    proof {
        crate::tree::lemma_empty_wf();
        crate::tree::lemma_new_node_wf(arena_nodes(tree), arbitrary(), (top_title(), false, false));
    }
    let top_name = crate::text::owned("root");
    proof {
        reveal_strlit("root");
        assert(top_name@ =~= top_title());
    }
    let top = arena_new_node(&mut tree, Node::new(top_name));
    proof {
        crate::tree::lemma_new_node_wf(TreeView::empty(), top, (top_title(), false, false));
        assert(arena_nodes(tree).dom() =~= set![top]);
        assert(Seq::<NodeId>::empty().to_set() =~= Set::<NodeId>::empty());
        assert(nodes_of(Seq::<NodeId>::empty(), entry_children(e, None, 0)) =~= Seq::<NodeId>::empty());
        assert(arena_order(tree) =~= slots_of(seq![top] + Seq::<NodeId>::empty()));
    }
    let mut stack_ids: Vec<NodeId> = vec![top];
    let mut stack_ind: Vec<u128> = vec![0];
    let mut first_level: Vec<NodeId> = Vec::new();
    let ghost mut ids: Seq<NodeId> = Seq::empty();
    let ghost mut st: Seq<int> = Seq::empty();
    let n = es.len();
    let mut i: usize = 0;
    while i < n
        invariant
            n == es@.len() == e.len(),
            forall|k: int| 0 <= k < es@.len() ==> e[k] == ((#[trigger] es@[k]).0 as nat, es@[k].1@),
            0 <= i <= n,
            holds_entries(arena_nodes(tree), e, top, ids, i as int),
            tree_wf(arena_nodes(tree)),
            arena_slots(tree) == arena_nodes(tree).dom().len(),
            arena_slots(tree) < usize::MAX,
            arena_order(tree) == slots_of(seq![top] + ids),
            first_level@ == nodes_of(ids, entry_children(e, None, i as int)),
            stack_ids@.len() == st.len() + 1,
            stack_ind@.len() == st.len() + 1,
            stack_ids@[0] == top,
            forall|q: int|
                0 <= q < st.len() ==> 0 <= #[trigger] st[q] < i && stack_ids@[q + 1] == ids[st[q]]
                    && stack_ind@[q + 1] == e[st[q]].0,
            forall|a: int, b: int| 0 <= a < b < st.len() ==> st[a] < st[b],
            forall|m: int| 0 <= m < i ==> #[trigger] covered(e, st, m),
        decreases n - i,
    {
        let ind = es[i].0;
        let ghost st0 = st;
        // leave the entries that are indented as much or more
        while stack_ids.len() > 1 && stack_ind[stack_ind.len() - 1] >= ind
            invariant
                ind == e[i as int].0,
                i < e.len(),
                stack_ids@.len() == st.len() + 1,
                stack_ind@.len() == st.len() + 1,
                stack_ids@[0] == top,
                st.len() <= st0.len(),
                st == st0.take(st.len() as int),
                forall|q: int|
                    0 <= q < st.len() ==> stack_ids@[q + 1] == ids[#[trigger] st[q]] && stack_ind@[q
                        + 1] == e[st[q]].0,
                forall|q: int| st.len() <= q < st0.len() ==> e[#[trigger] st0[q]].0 >= ind,
            decreases st.len(),
        {
            proof {
                assert(st0[st.len() - 1] == st[st.len() - 1]);
            }
            stack_ids.pop();
            stack_ind.pop();
            proof {
                st = st.drop_last();
                assert(st =~= st0.take(st.len() as int));
            }
        }
        let ghost len = st.len();
        let parent = stack_ids[stack_ids.len() - 1];
        proof {
            let x: int = if len == 0 {
                -1
            } else {
                st0[len - 1]
            };
            assert forall|m: int| x < m < i implies e[m].0 >= e[i as int].0 by {
                assert(covered(e, st0, m));
                let q = choose|q: int| 0 <= q < st0.len() && m <= #[trigger] st0[q] && e[st0[q]].0 <= e[m].0;
                if q < len {
                    assert(st0[q] == st[q]);
                    if q < len - 1 {
                        assert(st0[q] < st0[len - 1]);
                    }
                }
            }
            if len > 0 {
                assert(st0[len - 1] == st[len - 1]);
            }
            lemma_parent_among(e, i as int, i as int, x);
            assert(parent == node_of(top, ids, entry_parent(e, i as int)));
        }
        let title = string_from_chars(&es[i].1);
        let ghost t0 = arena_nodes(tree);
        proof {
            assert(crate::tree::all_in_use(arena_order(tree)));
        }
        let id = arena_new_node(&mut tree, Node::new(title));
        proof {
            assert(arena_order(tree) =~= slots_of(seq![top] + ids.push(id)));
        }
        proof {
            crate::tree::lemma_new_node_wf(t0, id, (e[i as int].1, false, false));
            lemma_add_entry(t0, e, top, ids, i as int, id);
            assert(t0.contains_key(parent));
        }
        node_append(&mut tree, parent, id);
        proof {
            crate::tree::lemma_append_wf(
                t0.insert(id, ((e[i as int].1, false, false), None, Seq::empty())),
                parent,
                id,
            );
        }
        if crate::tree::node_id_eq(parent, top) {
            first_level.push(id);
        }
        proof {
            lemma_children_below(e, None, i as int);
            lemma_nodes_of_push(ids, id, entry_children(e, None, i as int));
            lemma_parent_below(e, i as int, i as int);
            if let Some(j) = entry_parent(e, i as int) {
                assert(ids.contains(ids[j]));
            }
        }
        stack_ids.push(id);
        stack_ind.push(ind);
        proof {
            let ghost old_st = st;
            st = st.push(i as int);
            ids = ids.push(id);
            assert forall|m: int| 0 <= m < i + 1 implies #[trigger] covered(e, st, m) by {
                if m == i {
                    assert(st[len as int] == i);
                } else {
                    assert(covered(e, st0, m));
                    let q = choose|q: int| 0 <= q < st0.len() && m <= #[trigger] st0[q] && e[st0[q]].0 <= e[m].0;
                    if q < len {
                        assert(st[q] == st0[q]);
                    } else {
                        assert(st[len as int] == i);
                    }
                }
            }
        }
        i = i + 1;
    }
    (tree, top, first_level, Ghost(ids))
}

/// `t`, shown from `root`, is the map of the entries `e`: for some "root"
/// node `top` and nodes `ids` of the entries, `t` holds all of `e` and
/// `root` is the node the map is shown from.
pub open spec fn is_parse_of(t: TreeView, root: NodeId, e: Seq<(nat, Seq<char>)>) -> bool {
    exists|top: NodeId, ids: Seq<NodeId>|
        #[trigger] holds_entries(t, e, top, ids, e.len() as int) && root == parse_root(e, top, ids)
}

/// The arena `a`, shown from `root`, is the map of the entries `e` (see
/// [`is_parse_of`]) with its nodes created in order: the "root" node first,
/// then one node per entry, in the order of the entries, with no slot
/// removed.
pub open spec fn is_ordered_parse_of(a: Arena<Node>, root: NodeId, e: Seq<(nat, Seq<char>)>) -> bool {
    exists|top: NodeId, ids: Seq<NodeId>|
        #[trigger] holds_entries(arena_nodes(a), e, top, ids, e.len() as int) && root == parse_root(e, top, ids)
            && arena_order(a) == slots_of(seq![top] + ids)
}

/// `t`, shown from `root`, is the map read from `content`: the map of its
/// entries, or the single node "New Mind Map" when it has none.
pub open spec fn parsed_as(t: TreeView, root: NodeId, content: Seq<char>) -> bool {
    if parsed_entries(content).len() == 0 {
        t == TreeView::empty().insert(root, ((empty_map_title(), false, false), None, Seq::empty()))
    } else {
        is_parse_of(t, root, parsed_entries(content))
    }
}

/// A map with the single node "New Mind Map".
fn create_empty_map() -> (r: (Arena<Node>, NodeId))
    ensures
        arena_ok(r.0),
        arena_nodes(r.0) == TreeView::empty().insert(r.1, ((empty_map_title(), false, false), None, Seq::empty())),
        arena_order(r.0) == seq![Some(r.1)],
{
    let mut tree = arena_new();
    let title = crate::text::owned("New Mind Map");
    proof {
        reveal_strlit("New Mind Map");
        assert(title@ =~= empty_map_title());
    }
    let root = arena_new_node(&mut tree, Node::new(title));
    proof {
        crate::tree::lemma_empty_wf();
        crate::tree::lemma_new_node_wf(TreeView::empty(), root, (empty_map_title(), false, false));
        assert(arena_nodes(tree).dom() =~= set![root]);
        assert(arena_order(tree) =~= seq![Some(root)]);
    }
    (tree, root)
}

/// Reads a map from its text form. Each line with text gives a node, titled
/// by the line without its indentation, list marker and surrounding white
/// space; it hangs under the node of the last earlier line that is indented
/// less (tabs count as two spaces), or, when there is none, under a "root"
/// node. The map is shown from the only top-level node when there is exactly
/// one, else from "root". A text without any line of text gives the map
/// "New Mind Map". The nodes are created in order, "root" first and then one
/// per line, and the arena has no removed slot.
pub fn parse_hmm_content(content: &str) -> (r: (Arena<Node>, NodeId))
    ensures
        arena_ok(r.0),
        arena_nodes(r.0).contains_key(r.1),
        parsed_as(arena_nodes(r.0), r.1, content@),
        parsed_entries(content@).len() == 0 ==> arena_nodes(r.0) == TreeView::empty().insert(
            r.1,
            ((empty_map_title(), false, false), None, Seq::empty()),
        ),
        parsed_entries(content@).len() > 0 ==> is_parse_of(arena_nodes(r.0), r.1, parsed_entries(content@)),
        parsed_entries(content@).len() > 0 ==> is_ordered_parse_of(r.0, r.1, parsed_entries(content@)),
        parsed_entries(content@).len() == 0 ==> arena_order(r.0) == seq![Some(r.1)],
        arena_slots(r.0) == arena_nodes(r.0).dom().len(),
{
    let chars = chars_of(content);
    let lines = split_lines(&chars);
    let es = collect_entries(&lines);
    proof {
        assert(line_views(lines@) == lines_of(content@));
        assert(es@.len() == parsed_entries(content@).len());
    }
    if es.len() == 0 {
        return create_empty_map();
    }
    let ghost e = parsed_entries(content@);
    proof {
        assert(e.len() == es@.len());
    }
    let (tree, top, first, Ghost(ids)) = build_tree(&es, Ghost(e));
    let root = if first.len() == 1 {
        first[0]
    } else {
        top
    };
    proof {
        let f = entry_children(e, None, e.len() as int);
        assert(first@.len() == f.len());
        if f.len() == 1 {
            assert(first@[0] == ids[f[0]]);
            assert(arena_nodes(tree)[top].2[0] == ids[f[0]]);
        }
        assert(root == parse_root(e, top, ids));
        assert(holds_entries(arena_nodes(tree), e, top, ids, e.len() as int));
        assert(is_parse_of(arena_nodes(tree), root, e));
        assert(is_ordered_parse_of(tree, root, e));
    }
    (tree, root)
}

} // verus!
