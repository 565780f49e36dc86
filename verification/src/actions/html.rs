//! Exporting the map as a web page of nested, foldable sections.
use crate::app::{says, AppState};
use crate::actions::file::WriteRequest;
use crate::model::Node;
use crate::text::{chars_of, owned, push_all, push_str, string_from_chars};
use crate::tree::{arena_get_data, arena_nodes, arena_ok, lemma_rank_exists, node_children, ranked, tree_rank, tree_wf, TreeView};
use indextree::{Arena, NodeId};
use vstd::prelude::*;

verus! {

/// The page up to the title.
pub const HTML_HEAD: &'static str = "<!DOCTYPE html>\n<html lang=\"en\">\n<head>\n    <title>";

/// The page from the title to the map.
pub const HTML_STYLE: &'static str = "</title>\n    <meta charset=\"UTF-8\">\n    <meta name=\"viewport\" content=\"width=device-width,initial-scale=1,user-scalable=yes\">\n    <style>\n        body {\n            background-color: #222;\n            color: #ddd;\n            padding: 20px;\n            font-family: monospace;\n            font-size: 16px;\n            line-height: 1.6;\n        }\n        #root {\n            font-size: 1.5em;\n            font-weight: bold;\n            margin-bottom: 20px;\n            padding: 10px;\n            border-bottom: 2px solid #444;\n        }\n        details {\n            margin-left: 20px;\n            margin-top: 10px;\n        }\n        summary {\n            cursor: pointer;\n            padding: 5px;\n            border-radius: 3px;\n        }\n        summary:hover {\n            background-color: #333;\n        }\n        p {\n            margin: 5px 0 5px 20px;\n            padding: 5px;\n        }\n    </style>\n</head>\n<body>\n";

/// The end of the page.
pub const HTML_END: &'static str = "</body>\n</html>\n";

/// The markup of the subtree at `id`: the root in a heading block; a node
/// without shown children (none, or collapsed) as a paragraph; any other as
/// a foldable section with the node as its summary and its children inside.
pub open spec fn html_node(t: TreeView, id: NodeId, is_root: bool) -> Seq<char>
    decreases tree_rank(t)[id], t[id].2.len() + 1,
{
    let title = t[id].0.0;
    let k = if t[id].0.1 {
        0
    } else {
        t[id].2.len() as int
    };
    if is_root {
        "<div id=\"root\">"@ + title + "</div>\n"@ + html_children(t, id, k)
    } else if k == 0 {
        "<p>"@ + title + "</p>\n"@
    } else {
        "<details>\n"@ + "<summary>"@ + title + "</summary>\n"@ + html_children(t, id, k) + "</details>\n"@
    }
}

/// The markup of the subtrees of the first `k` children of `p`.
pub open spec fn html_children(t: TreeView, p: NodeId, k: int) -> Seq<char>
    decreases tree_rank(t)[p], k,
{
    if k <= 0 || k > t[p].2.len() {
        Seq::empty()
    } else {
        let c = t[p].2[k - 1];
        html_children(t, p, k - 1) + if tree_rank(t)[c] < tree_rank(t)[p] {
            html_node(t, c, false)
        } else {
            Seq::empty()
        }
    }
}

/// The page of the map shown from `root`.
pub open spec fn html_page(t: TreeView, root: NodeId) -> Seq<char> {
    HTML_HEAD@ + t[root].0.0 + HTML_STYLE@ + html_node(t, root, true) + HTML_END@
}

/// Appends the markup of the subtree at `id` to `out`.
fn write_html(tree: &Arena<Node>, id: NodeId, is_root: bool, out: &mut Vec<char>)
    requires
        tree_wf(arena_nodes(*tree)),
        arena_nodes(*tree).contains_key(id),
    ensures
        final(out)@ == old(out)@ + html_node(arena_nodes(*tree), id, is_root),
    decreases tree_rank(arena_nodes(*tree))[id],
{
    let ghost t = arena_nodes(*tree);
    proof {
        lemma_rank_exists(t);
    }
    let node = arena_get_data(tree, id).unwrap();
    let title = chars_of(node.title.as_str());
    let children = if node.is_collapsed {
        Vec::new()
    } else {
        node_children(tree, id)
    };
    let ghost k = children@.len() as int;
    let ghost before = out@;
    if is_root {
        push_str(out, "<div id=\"root\">");
        push_all(out, &title);
        push_str(out, "</div>\n");
    } else if children.len() == 0 {
        push_str(out, "<p>");
        push_all(out, &title);
        push_str(out, "</p>\n");
        assert(out@ =~= before + html_node(t, id, is_root));
        return;
    } else {
        push_str(out, "<details>\n");
        push_str(out, "<summary>");
        push_all(out, &title);
        push_str(out, "</summary>\n");
    }
    let ghost head = out@;
    let mut i: usize = 0;
    assert(head =~= head + html_children(t, id, 0));
    while i < children.len()
        invariant
            tree_wf(t),
            t == arena_nodes(*tree),
            ranked(t, tree_rank(t)),
            t.contains_key(id),
            k == children@.len(),
            k == if t[id].0.1 {
                0
            } else {
                t[id].2.len() as int
            },
            !t[id].0.1 ==> children@ == t[id].2,
            0 <= i <= k,
            out@ == head + html_children(t, id, i as int),
        decreases k - i,
    {
        let c = children[i];
        proof {
            assert(t[id].2[i as int] == c);
            assert(tree_rank(t)[c] < tree_rank(t)[id]);
        }
        write_html(tree, c, false, out);
        i = i + 1;
        assert(out@ =~= head + html_children(t, id, i as int));
    }
    if !is_root {
        push_str(out, "</details>\n");
    }
    assert(out@ =~= before + html_node(t, id, is_root));
}

/// The message when the map has no file name to export next to.
pub open spec fn no_name_message() -> Seq<char> {
    "Can't export the map when it doesn't have a file name yet. Save it first."@
}

/// Asks to write the map as a web page (see [`html_page`]) next to the
/// map's file, named after it with ".html" added. Without a file name
/// nothing is written and the message says so; without a root nothing
/// happens.
pub fn export_html(app: &mut AppState) -> (req: Option<WriteRequest>)
    requires
        arena_ok(old(app).tree),
        old(app).root_id matches Some(r) ==> old(app).tree_view().contains_key(r),
    ensures
        req is Some <==> old(app).filename is Some && old(app).root_id is Some,
        req matches Some(w) ==> w.path@ == old(app).filename->0@ + ".html"@ && w.content@ == html_page(
            old(app).tree_view(),
            old(app).root_id->0,
        ) && *final(app) == *old(app),
        old(app).filename is None ==> says(final(app).message, no_name_message()) && *final(app) == (
        AppState { message: final(app).message, ..*old(app) }),
        old(app).filename is Some && old(app).root_id is None ==> *final(app) == *old(app),
{
    let name = match &app.filename {
        Some(f) => f.clone(),
        None => {
            app.set_message(owned("Can't export the map when it doesn't have a file name yet. Save it first."));
            return None;
        },
    };
    match app.root_id {
        Some(root_id) => {
            let mut path: Vec<char> = chars_of(name.as_str());
            push_str(&mut path, ".html");
            let node = arena_get_data(&app.tree, root_id).unwrap();
            let mut out: Vec<char> = Vec::new();
            push_str(&mut out, HTML_HEAD);
            push_all(&mut out, &chars_of(node.title.as_str()));
            push_str(&mut out, HTML_STYLE);
            write_html(&app.tree, root_id, true, &mut out);
            push_str(&mut out, HTML_END);
            Some(WriteRequest { path: string_from_chars(&path), content: string_from_chars(&out) })
        },
        None => None,
    }
}

} // verus!
