//! The help screen's text.
use crate::text::{owned, push_str, string_from_chars};
use vstd::prelude::*;

verus! {

/// One part of the help screen: a title and its keys with what they do.
pub struct HelpSection {
    pub title: &'static str,
    pub items: Vec<(&'static str, &'static str)>,
}

/// The view of a help section: the title, and each key with its meaning.
pub type SectionView = (Seq<char>, Seq<(Seq<char>, Seq<char>)>);

impl HelpSection {
    pub open spec fn view_of(&self) -> SectionView {
        (self.title@, self.items@.map_values(|p: (&str, &str)| (p.0@, p.1@)))
    }
}

/// The help screen's sections.
pub open spec fn help_sections() -> Seq<SectionView> {
    seq![
        ("Navigation:"@, seq![
            ("h/←"@, "Move left (parent)"@),
            ("j/↓"@, "Move down"@),
            ("k/↑"@, "Move up"@),
            ("l/→"@, "Move right (child)"@),
            ("g  "@, "Go to top"@),
            ("G  "@, "Go to bottom"@),
            ("m/~"@, "Go to root"@),
        ]),
        ("Editing:"@, seq![
            ("e/i"@, "Edit node (append)"@),
            ("E/I"@, "Edit node (replace)"@),
            ("o/⏎"@, "Insert sibling"@),
            ("O/⇥"@, "Insert child"@),
            ("d  "@, "Delete node"@),
            ("D  "@, "Delete children"@),
        ]),
        ("View:"@, seq![
            ("␣  "@, "Toggle collapse"@),
            ("v  "@, "Collapse all"@),
            ("b  "@, "Expand all"@),
            ("1-5"@, "Collapse to level"@),
        ]),
        ("File:"@, seq![("s  "@, "Save"@), ("S  "@, "Save as"@), ("q  "@, "Quit"@)]),
    ]
}

/// The line of one key: two spaces, the key, two spaces, what it does.
pub open spec fn item_line(item: (Seq<char>, Seq<char>)) -> Seq<char> {
    "  "@ + item.0 + "  "@ + item.1
}

/// The lines of the items `items`.
pub open spec fn item_lines(items: Seq<(Seq<char>, Seq<char>)>) -> Seq<Seq<char>> {
    items.map_values(|it: (Seq<char>, Seq<char>)| item_line(it))
}

/// The lines of a section: its title, its items, an empty line.
pub open spec fn section_lines(s: SectionView) -> Seq<Seq<char>> {
    seq![s.0] + item_lines(s.1) + seq![Seq::empty()]
}

/// The lines of the sections, one after the other.
pub open spec fn sections_lines(ss: Seq<SectionView>) -> Seq<Seq<char>>
    decreases ss.len(),
{
    if ss.len() == 0 {
        Seq::empty()
    } else {
        sections_lines(ss.drop_last()) + section_lines(ss.last())
    }
}

/// The help screen's lines: a heading, an empty line, the sections, and how
/// to close the screen.
pub open spec fn help_lines() -> Seq<Seq<char>> {
    seq!["h-m-m Help"@, Seq::empty()] + sections_lines(help_sections()) + seq![
        "Press ESC or q to close help"@,
    ]
}

fn pair(v: &mut Vec<(&'static str, &'static str)>, k: &'static str, d: &'static str)
    ensures
        final(v)@ == old(v)@.push((k, d)),
{
    v.push((k, d));
}

/// The help screen's sections (see [`help_sections`]).
pub fn sections() -> (r: Vec<HelpSection>)
    ensures
        r@.map_values(|s: HelpSection| s.view_of()) == help_sections(),
{
    let mut nav = Vec::new();
    pair(&mut nav, "h/←", "Move left (parent)");
    pair(&mut nav, "j/↓", "Move down");
    pair(&mut nav, "k/↑", "Move up");
    pair(&mut nav, "l/→", "Move right (child)");
    pair(&mut nav, "g  ", "Go to top");
    pair(&mut nav, "G  ", "Go to bottom");
    pair(&mut nav, "m/~", "Go to root");
    let mut edit = Vec::new();
    pair(&mut edit, "e/i", "Edit node (append)");
    pair(&mut edit, "E/I", "Edit node (replace)");
    pair(&mut edit, "o/⏎", "Insert sibling");
    pair(&mut edit, "O/⇥", "Insert child");
    pair(&mut edit, "d  ", "Delete node");
    pair(&mut edit, "D  ", "Delete children");
    let mut view = Vec::new();
    pair(&mut view, "␣  ", "Toggle collapse");
    pair(&mut view, "v  ", "Collapse all");
    pair(&mut view, "b  ", "Expand all");
    pair(&mut view, "1-5", "Collapse to level");
    let mut file = Vec::new();
    pair(&mut file, "s  ", "Save");
    pair(&mut file, "S  ", "Save as");
    pair(&mut file, "q  ", "Quit");
    let mut r: Vec<HelpSection> = Vec::new();
    r.push(HelpSection { title: "Navigation:", items: nav });
    r.push(HelpSection { title: "Editing:", items: edit });
    r.push(HelpSection { title: "View:", items: view });
    r.push(HelpSection { title: "File:", items: file });
    proof {
        let hs = help_sections();
        let rv = r@.map_values(|s: HelpSection| s.view_of());
        assert(rv[0].1 =~= hs[0].1);
        assert(rv[1].1 =~= hs[1].1);
        assert(rv[2].1 =~= hs[2].1);
        assert(rv[3].1 =~= hs[3].1);
        assert(rv =~= hs);
    }
    r
}

proof fn lemma_item_lines_push(xs: Seq<(Seq<char>, Seq<char>)>, x: (Seq<char>, Seq<char>))
    ensures
        item_lines(xs.push(x)) == item_lines(xs).push(item_line(x)),
{
    assert(item_lines(xs.push(x)) =~= item_lines(xs).push(item_line(x)));
}

/// Builds the help screen.
pub struct HelpRenderer;

impl HelpRenderer {
    /// The help screen's lines (see [`help_lines`]); the front end shows
    /// the first line and the section titles in bold.
    pub fn build_help_text() -> (lines: Vec<String>)
        ensures
            lines@.map_values(|l: String| l@) == help_lines(),
    {
        let ss = sections();
        let mut lines: Vec<String> = Vec::new();
        lines.push(owned("h-m-m Help"));
        lines.push(String::new());
        let ghost views = ss@.map_values(|s: HelpSection| s.view_of());
        let mut i: usize = 0;
        while i < ss.len()
            invariant
                0 <= i <= ss@.len(),
                views == ss@.map_values(|s: HelpSection| s.view_of()),
                lines@.map_values(|l: String| l@) == seq!["h-m-m Help"@, Seq::<char>::empty()]
                    + sections_lines(views.take(i as int)),
            decreases ss@.len() - i,
        {
            let ghost before = lines@.map_values(|l: String| l@);
            let s = &ss[i];
            lines.push(owned(s.title));
            assert(lines@.map_values(|l: String| l@) =~= before + seq![s.title@]);
            assert(item_lines(s.view_of().1.take(0)) =~= Seq::<Seq<char>>::empty());
            let mut j: usize = 0;
            while j < s.items.len()
                invariant
                    0 <= j <= s.items@.len(),
                    lines@.map_values(|l: String| l@) == before + seq![s.title@] + item_lines(
                        s.view_of().1.take(j as int),
                    ),
                decreases s.items@.len() - j,
            {
                let (k, d) = s.items[j];
                let mut v: Vec<char> = Vec::new();
                push_str(&mut v, "  ");
                push_str(&mut v, k);
                push_str(&mut v, "  ");
                push_str(&mut v, d);
                let ghost mid = lines@.map_values(|l: String| l@);
                lines.push(string_from_chars(&v));
                proof {
                    let its = s.view_of().1;
                    assert(its[j as int] == (k@, d@));
                    assert(its.take(j + 1) =~= its.take(j as int).push(its[j as int]));
                    lemma_item_lines_push(its.take(j as int), its[j as int]);
                    assert(lines@.map_values(|l: String| l@) =~= mid.push(v@));
                }
                j = j + 1;
                assert(lines@.map_values(|l: String| l@) =~= before + seq![s.title@] + item_lines(
                    s.view_of().1.take(j as int),
                ));
            }
            let ghost mid2 = lines@.map_values(|l: String| l@);
            lines.push(String::new());
            proof {
                assert(lines@.map_values(|l: String| l@) =~= mid2.push(Seq::empty()));
                assert(s.view_of().1.take(s.items@.len() as int) =~= s.view_of().1);
                assert(views.take(i + 1).drop_last() =~= views.take(i as int));
                assert(views[i as int] == s.view_of());
            }
            i = i + 1;
            assert(lines@.map_values(|l: String| l@) =~= seq!["h-m-m Help"@, Seq::<char>::empty()]
                + sections_lines(views.take(i as int)));
        }
        lines.push(owned("Press ESC or q to close help"));
        proof {
            assert(views.take(ss@.len() as int) =~= views);
        }
        assert(lines@.map_values(|l: String| l@) =~= help_lines());
        lines
    }
}

} // verus!
