//! A node of the mind map.
use vstd::prelude::*;

verus! {

/// The abstract value of a node: its title, whether it is collapsed, and
/// whether it carries the hidden flag.
pub type NodeView = (Seq<char>, bool, bool);

/// The title prefix that marks a node as hidden.
pub open spec fn hidden_marker() -> Seq<char> {
    seq!['[', 'H', 'I', 'D', 'D', 'E', 'N', ']', ' ']
}

/// `s` starts with `prefix`.
pub open spec fn starts_with(s: Seq<char>, prefix: Seq<char>) -> bool {
    prefix.len() <= s.len() && s.subrange(0, prefix.len() as int) == prefix
}

/// One node of a mind map.
#[derive(Clone, Debug)]
pub struct Node {
    pub title: String,
    pub is_collapsed: bool,
    pub is_hidden: bool,
}

impl View for Node {
    type V = NodeView;

    open spec fn view(&self) -> NodeView {
        (self.title@, self.is_collapsed, self.is_hidden)
    }
}

/// `s` starts with `prefix` (exec form of [`starts_with`]).
pub fn str_starts_with(s: &str, prefix: &str) -> (b: bool)
    ensures
        b == starts_with(s@, prefix@),
{
    let n = s.unicode_len();
    let m = prefix.unicode_len();
    if m > n {
        return false;
    }
    let mut i: usize = 0;
    while i < m
        invariant
            m <= n,
            n == s@.len(),
            m == prefix@.len(),
            0 <= i <= m,
            forall|k: int| 0 <= k < i ==> s@[k] == prefix@[k],
        decreases m - i,
    {
        if s.get_char(i) != prefix.get_char(i) {
            assert(s@.subrange(0, m as int)[i as int] != prefix@[i as int]);
            return false;
        }
        i = i + 1;
    }
    assert(s@.subrange(0, m as int) =~= prefix@);
    true
}

/// `a` and `b` hold the same text.
pub fn str_eq(a: &str, b: &str) -> (same: bool)
    ensures
        same == (a@ == b@),
{
    if a.unicode_len() != b.unicode_len() {
        return false;
    }
    let r = str_starts_with(a, b);
    proof {
        if r {
            assert(a@.subrange(0, b@.len() as int) =~= a@);
        }
        if a@ == b@ {
            assert(a@.subrange(0, b@.len() as int) =~= b@);
        }
    }
    r
}

impl Node {
    /// A visible, expanded node with the given title.
    pub fn new(title: String) -> (n: Node)
        ensures
            n@ == (title@, false, false),
    {
        Node { title, is_collapsed: false, is_hidden: false }
    }

    /// A node is hidden when its flag is set or its title starts with
    /// `"[HIDDEN] "`.
    pub fn is_hidden(&self) -> (b: bool)
        ensures
            b == (self.is_hidden || starts_with(self.title@, hidden_marker())),
    {
        proof {
            reveal_strlit("[HIDDEN] ");
            assert("[HIDDEN] "@ =~= hidden_marker());
        }
        self.is_hidden || str_starts_with(self.title.as_str(), "[HIDDEN] ")
    }

    /// A copy of this node.
    pub fn duplicate(&self) -> (n: Node)
        ensures
            n@ == self@,
    {
        Node { title: self.title.clone(), is_collapsed: self.is_collapsed, is_hidden: self.is_hidden }
    }
}

} // verus!
