//! Searching titles, and stepping through the results.
use crate::actions::view::no_freed_slots;
use crate::app::{AppMode, AppState};
use crate::text::{chars_of, contains_seq, push_decimal, push_str, seq_contains, string_from_chars, string_pop, string_push, decimal};
use crate::tree::{arena_get_data, arena_node_ids, arena_order, live_ids, title_of, TreeView};
use indextree::NodeId;
use vstd::prelude::*;

verus! {

/// What `str::to_lowercase` makes of a string (Unicode's lowercase mapping,
/// which takes tables to state).
pub uninterp spec fn lowercase(s: Seq<char>) -> Seq<char>;

/// `str::to_lowercase`.
#[verifier::external_body]
fn to_lowercase(s: &str) -> (r: String)
    ensures
        r@ == lowercase(s@),
{
    s.to_lowercase()
}

/// Starts a search with an empty query.
pub fn start_search(app: &mut AppState)
    ensures
        final(app).mode matches AppMode::Search { query } && query@.len() == 0,
        *final(app) == (AppState { mode: final(app).mode, ..*old(app) }),
{
    app.mode = AppMode::Search { query: String::new() };
}

/// Adds `c` to the end of the query, in search mode.
pub fn type_search_char(app: &mut AppState, c: char)
    ensures
        old(app).mode matches AppMode::Search { query } ==> final(app).mode matches AppMode::Search {
            query: q2,
        } && q2@ == query@.push(c),
        !(old(app).mode is Search) ==> final(app).mode == old(app).mode,
        *final(app) == (AppState { mode: final(app).mode, ..*old(app) }),
{
    if let AppMode::Search { query } = &mut app.mode {
        string_push(query, c);
    }
}

/// Removes the last character of the query, in search mode.
pub fn backspace_search(app: &mut AppState)
    ensures
        old(app).mode matches AppMode::Search { query } ==> final(app).mode matches AppMode::Search {
            query: q2,
        } && q2@ == if query@.len() > 0 { query@.drop_last() } else { query@ },
        !(old(app).mode is Search) ==> final(app).mode == old(app).mode,
        *final(app) == (AppState { mode: final(app).mode, ..*old(app) }),
{
    if let AppMode::Search { query } = &mut app.mode {
        let _ = string_pop(query);
    }
}

/// A node matches a query when its lowercased title contains the lowercased
/// query.
pub open spec fn matches_query(t: TreeView, id: NodeId, query: Seq<char>) -> bool {
    contains_seq(lowercase(title_of(t, id)), lowercase(query))
}

/// The nodes of `ids` that match `query`, in the order of `ids`.
pub open spec fn matching_in(t: TreeView, ids: Seq<NodeId>, query: Seq<char>) -> Seq<NodeId>
    decreases ids.len(),
{
    if ids.len() == 0 {
        Seq::empty()
    } else {
        let r = matching_in(t, ids.drop_last(), query);
        if matches_query(t, ids.last(), query) {
            r.push(ids.last())
        } else {
            r
        }
    }
}

/// "Found `n` results".
pub open spec fn found_message(n: nat) -> Seq<char> {
    "Found "@ + decimal(n) + " results"@
}

/// Runs the search of the query, in search mode: the results are the nodes
/// whose title matches it, each once, in the arena's storage order; the
/// first result becomes active and
/// the message reports the count ("No results found" when there is none).
/// The mode returns to normal in any case. (Every slot is visited, so the
/// arena must hold no removed slot.)
pub fn confirm_search(app: &mut AppState)
    requires
        old(app).wf(),
        no_freed_slots(old(app).tree),
    ensures
        final(app).wf(),
        final(app).mode == AppMode::Normal,
        old(app).mode matches AppMode::Search { query } ==> {
            &&& final(app).search_results@ == matching_in(
                old(app).tree_view(),
                live_ids(arena_order(old(app).tree)),
                query@,
            )
            &&& final(app).search_results@.no_duplicates()
            &&& forall|x: NodeId|
                #![trigger final(app).search_results@.contains(x)]
                final(app).search_results@.contains(x) <==> old(app).tree_view().contains_key(x)
                    && matches_query(old(app).tree_view(), x, query@)
            &&& final(app).search_index == 0
            &&& final(app).search_results@.len() > 0 ==> {
                &&& final(app).active_node_id == Some(final(app).search_results@[0])
                &&& final(app).message matches Some(m) && m@ == found_message(
                    final(app).search_results@.len(),
                )
            }
            &&& final(app).search_results@.len() == 0 ==> {
                &&& final(app).active_node_id == old(app).active_node_id
                &&& final(app).message matches Some(m) && m@ == "No results found"@
            }
            &&& *final(app) == (AppState { mode: AppMode::Normal, search_results: final(app).search_results,
                search_index: 0, active_node_id: final(app).active_node_id, message: final(app).message,
                ..*old(app) })
        },
        !(old(app).mode is Search) ==> *final(app) == (AppState { mode: AppMode::Normal, ..*old(app) }),
{
    if let AppMode::Search { query } = &app.mode {
        let ghost t = app.tree_view();
        let needle = chars_of(to_lowercase(query.as_str()).as_str());
        let ids = arena_node_ids(&app.tree);
        let mut results: Vec<NodeId> = Vec::new();
        let mut i: usize = 0;
        while i < ids.len()
            invariant
                t == app.tree_view(),
                ids@.no_duplicates(),
                ids@.to_set() == t.dom(),
                ids@ == live_ids(arena_order(app.tree)),
                needle@ == lowercase(query@),
                results@ == matching_in(t, ids@.take(i as int), query@),
                0 <= i <= ids@.len(),
                results@.no_duplicates(),
                forall|x: NodeId|
                    #![trigger results@.contains(x)]
                    results@.contains(x) <==> ids@.take(i as int).contains(x) && matches_query(t, x, query@),
            decreases ids@.len() - i,
        {
            let id = ids[i];
            proof {
                assert(ids@.to_set().contains(id));
                crate::actions::view::lemma_take_one_more(ids@, i as int);
            }
            proof {
                assert(ids@.take(i + 1).drop_last() =~= ids@.take(i as int));
                assert(ids@.take(i + 1).last() == id);
            }
            let node = arena_get_data(&app.tree, id).unwrap();
            let hay = chars_of(to_lowercase(node.title.as_str()).as_str());
            if seq_contains(&hay, &needle) {
                proof {
                    assert(!ids@.take(i as int).contains(id)) by {
                        if ids@.take(i as int).contains(id) {
                            let k = choose|k: int| 0 <= k < i && #[trigger] ids@.take(i as int)[k] == id;
                            assert(ids@[k] == ids@[i as int]);
                        }
                    }
                    assert(!results@.contains(id));
                }
                let ghost before = results@;
                results.push(id);
                proof {
                    assert forall|x: NodeId| #[trigger] results@.contains(x) <==> before.contains(x) || x == id by {
                        if results@.contains(x) {
                            let k = choose|k: int| 0 <= k < results@.len() && #[trigger] results@[k] == x;
                            if k < results@.len() - 1 {
                                assert(before[k] == x);
                            }
                        }
                        if before.contains(x) {
                            let k = choose|k: int| 0 <= k < before.len() && #[trigger] before[k] == x;
                            assert(results@[k] == x);
                        }
                        if x == id {
                            assert(results@[results@.len() - 1] == x);
                        }
                    }
                }
            }
            i = i + 1;
        }
        proof {
            assert(ids@.take(ids@.len() as int) =~= ids@);
            assert forall|x: NodeId| #[trigger] results@.contains(x) <==> t.contains_key(x) && matches_query(t, x, query@) by {
                if t.contains_key(x) {
                    assert(ids@.to_set().contains(x));
                }
                if ids@.contains(x) {
                    assert(ids@.to_set().contains(x));
                }
            }
        }
        let n = results.len();
        app.search_results = results;
        app.search_index = 0;
        if n > 0 {
            app.active_node_id = Some(app.search_results[0]);
            let mut msg: Vec<char> = Vec::new();
            push_str(&mut msg, "Found ");
            push_decimal(&mut msg, n);
            push_str(&mut msg, " results");
            app.set_message(string_from_chars(&msg));
        } else {
            app.set_message(crate::text::owned("No results found"));
        }
    }
    app.mode = AppMode::Normal;
}

/// Leaves search mode.
pub fn cancel_search(app: &mut AppState)
    ensures
        *final(app) == (AppState { mode: AppMode::Normal, ..*old(app) }),
{
    app.mode = AppMode::Normal;
}

/// "Result `i`/`n`".
pub open spec fn result_message(i: nat, n: nat) -> Seq<char> {
    "Result "@ + decimal(i) + "/"@ + decimal(n)
}

fn report_result(app: &mut AppState)
    requires
        old(app).search_index < old(app).search_results@.len(),
    ensures
        final(app).message matches Some(m) && m@ == result_message(
            old(app).search_index as nat + 1,
            old(app).search_results@.len(),
        ),
        *final(app) == (AppState { message: final(app).message, ..*old(app) }),
{
    let n = app.search_results.len();
    let mut msg: Vec<char> = Vec::new();
    push_str(&mut msg, "Result ");
    push_decimal(&mut msg, app.search_index + 1);
    push_str(&mut msg, "/");
    push_decimal(&mut msg, n);
    app.set_message(string_from_chars(&msg));
}

/// Steps to the next search result (wrapping around), makes it active and
/// reports "Result i/n"; nothing happens without results.
pub fn next_search_result(app: &mut AppState)
    requires
        old(app).search_index < usize::MAX,
    ensures
        old(app).search_results@.len() == 0 ==> *final(app) == *old(app),
        old(app).search_results@.len() > 0 ==> {
            let i = ((old(app).search_index + 1) % (old(app).search_results@.len() as int)) as usize;
            &&& final(app).search_index == i
            &&& final(app).active_node_id == Some(old(app).search_results@[i as int])
            &&& final(app).message matches Some(m) && m@ == result_message(
                i as nat + 1,
                old(app).search_results@.len(),
            )
            &&& *final(app) == (AppState { search_index: i, active_node_id: final(app).active_node_id,
                message: final(app).message, ..*old(app) })
        },
{
    if app.search_results.len() > 0 {
        app.search_index = (app.search_index + 1) % app.search_results.len();
        app.active_node_id = Some(app.search_results[app.search_index]);
        report_result(app);
    }
}

/// Steps to the previous search result (wrapping around), makes it active
/// and reports "Result i/n"; nothing happens without results.
pub fn previous_search_result(app: &mut AppState)
    requires
        old(app).search_index <= old(app).search_results@.len(),
    ensures
        old(app).search_results@.len() == 0 ==> *final(app) == *old(app),
        old(app).search_results@.len() > 0 ==> {
            let i = if old(app).search_index == 0 {
                (old(app).search_results@.len() - 1) as usize
            } else {
                (old(app).search_index - 1) as usize
            };
            &&& final(app).search_index == i
            &&& final(app).active_node_id == Some(old(app).search_results@[i as int])
            &&& final(app).message matches Some(m) && m@ == result_message(
                i as nat + 1,
                old(app).search_results@.len(),
            )
            &&& *final(app) == (AppState { search_index: i, active_node_id: final(app).active_node_id,
                message: final(app).message, ..*old(app) })
        },
{
    if app.search_results.len() > 0 {
        app.search_index = if app.search_index == 0 {
            app.search_results.len() - 1
        } else {
            app.search_index - 1
        };
        app.active_node_id = Some(app.search_results[app.search_index]);
        report_result(app);
    }
}

} // verus!
