//! What a search matches, told without the search: the ways down from a tree
//! to the blobs that pass the filter.
//!
//! A way down is the position of the entry taken at each level. The matches
//! of a search are, one for one and in order, the blobs at the end of the
//! ways down that fit within its depth.

use crate::model::GitTreeItemView;
use crate::search::{
    descend, hit, is_blob, is_tree, search, search_entries, search_entry, GitSearchResultView, Graph,
    PathFilterView, Walk,
};
use vstd::prelude::*;

verus! {

/// Whether `path` leads from `tree` down to a blob that passes the filter,
/// within `depth` levels: each position but the last picks a sub-tree that
/// can be fetched, and the last picks the blob.
pub open spec fn reaches(graph: Graph, filter: PathFilterView, tree: Seq<char>, depth: nat, path: Seq<int>) -> bool
    decreases path.len(),
{
    &&& depth >= 1
    &&& path.len() >= 1
    &&& graph.contains_key(tree)
    &&& 0 <= path[0] < graph[tree].len()
    &&& if path.len() == 1 {
        is_blob(graph[tree][path[0]]) && filter.accepts(graph[tree][path[0]].path)
    } else {
        is_tree(graph[tree][path[0]]) && reaches(
            graph,
            filter,
            graph[tree][path[0]].sha,
            (depth - 1) as nat,
            path.drop_first(),
        )
    }
}

/// The match at the end of a way down, for a search that reports full paths
/// under `root`.
pub open spec fn found_at(graph: Graph, tree: Seq<char>, root: Seq<char>, path: Seq<int>) -> GitSearchResultView
    decreases path.len(),
{
    if path.len() <= 1 {
        hit(graph[tree][path[0]], tree, root)
    } else {
        found_at(
            graph,
            graph[tree][path[0]].sha,
            descend(root, graph[tree][path[0]].path),
            path.drop_first(),
        )
    }
}

/// The path segments of the entries along a way down.
pub open spec fn segments(graph: Graph, tree: Seq<char>, path: Seq<int>) -> Seq<Seq<char>>
    decreases path.len(),
{
    if path.len() == 0 {
        Seq::empty()
    } else {
        seq![graph[tree][path[0]].path] + segments(graph, graph[tree][path[0]].sha, path.drop_first())
    }
}

/// `root`, and after it each segment behind a slash.
pub open spec fn slash_joined(root: Seq<char>, segments: Seq<Seq<char>>) -> Seq<char>
    decreases segments.len(),
{
    if segments.len() == 0 {
        root
    } else {
        slash_joined(descend(root, segments[0]), segments.drop_first())
    }
}

/// The ways down from `tree` within `depth` levels, in the order of a
/// depth-first walk.
pub open spec fn descents(graph: Graph, filter: PathFilterView, tree: Seq<char>, depth: nat) -> Seq<Seq<int>>
    decreases depth, 1nat, 0nat,
{
    if depth == 0 || !graph.contains_key(tree) {
        Seq::empty()
    } else {
        descents_from(graph, filter, graph[tree], 0, depth)
    }
}

/// The ways down that begin at the entry at position `i` or a later one.
pub open spec fn descents_from(
    graph: Graph,
    filter: PathFilterView,
    entries: Seq<GitTreeItemView>,
    i: int,
    depth: nat,
) -> Seq<Seq<int>>
    decreases depth, 0nat, entries.len() - i,
{
    if depth == 0 || i < 0 || i >= entries.len() {
        Seq::empty()
    } else {
        descents_at(graph, filter, entries[i], i, depth) + descents_from(graph, filter, entries, i + 1, depth)
    }
}

/// The ways down that begin at the entry `item`, which is at position `i`.
pub open spec fn descents_at(graph: Graph, filter: PathFilterView, item: GitTreeItemView, i: int, depth: nat) -> Seq<
    Seq<int>,
>
    decreases depth, 0nat, 0nat,
{
    if depth == 0 {
        Seq::empty()
    } else if is_tree(item) {
        descents(graph, filter, item.sha, (depth - 1) as nat).map_values(|path: Seq<int>| seq![i] + path)
    } else if is_blob(item) && filter.accepts(item.path) {
        seq![seq![i]]
    } else {
        Seq::empty()
    }
}

/// No entry is both a sub-tree and a blob.
pub proof fn lemma_tree_or_blob(item: GitTreeItemView)
    ensures
        !(is_tree(item) && is_blob(item)),
{
    reveal_strlit("tree");
    reveal_strlit("blob");
    if is_tree(item) && is_blob(item) {
        assert("tree"@[0] == 't');
        assert("blob"@[0] == 'b');
    }
}

/// The full path of the match at the end of a way down is the root of the
/// search and, behind a slash each, the segments of the entries along the
/// way.
pub proof fn lemma_full_path(graph: Graph, tree: Seq<char>, root: Seq<char>, path: Seq<int>)
    requires
        path.len() >= 1,
    ensures
        found_at(graph, tree, root, path).fullpath == slash_joined(root, segments(graph, tree, path)),
    decreases path.len(),
{
    let item = graph[tree][path[0]];
    let rest = segments(graph, item.sha, path.drop_first());
    assert((seq![item.path] + rest).drop_first() == rest);
    if path.len() > 1 {
        lemma_full_path(graph, item.sha, descend(root, item.path), path.drop_first());
    } else {
        assert(rest.len() == 0);
        assert(slash_joined(descend(root, item.path), rest) == descend(root, item.path));
    }
}

proof fn lemma_sound(graph: Graph, filter: PathFilterView, tree: Seq<char>, depth: nat)
    ensures
        forall|k: int|
            0 <= k < descents(graph, filter, tree, depth).len() ==> reaches(
                graph,
                filter,
                tree,
                depth,
                #[trigger] descents(graph, filter, tree, depth)[k],
            ),
    decreases depth, 1nat, 0nat,
{
    if depth > 0 && graph.contains_key(tree) {
        lemma_sound_from(graph, filter, tree, 0, depth);
        let ways = descents_from(graph, filter, graph[tree], 0, depth);
        assert forall|k: int| 0 <= k < ways.len() implies reaches(graph, filter, tree, depth, #[trigger] ways[k]) by {}
    }
}

proof fn lemma_sound_from(graph: Graph, filter: PathFilterView, tree: Seq<char>, i: int, depth: nat)
    requires
        depth >= 1,
        graph.contains_key(tree),
        0 <= i,
    ensures
        forall|k: int|
            0 <= k < descents_from(graph, filter, graph[tree], i, depth).len() ==> {
                let path = #[trigger] descents_from(graph, filter, graph[tree], i, depth)[k];
                reaches(graph, filter, tree, depth, path) && path[0] >= i
            },
    decreases depth, 0nat, graph[tree].len() - i,
{
    let entries = graph[tree];
    if i < entries.len() {
        let item = entries[i];
        let at = descents_at(graph, filter, item, i, depth);
        let from = descents_from(graph, filter, entries, i + 1, depth);
        let all = descents_from(graph, filter, entries, i, depth);
        lemma_sound_from(graph, filter, tree, i + 1, depth);
        if is_tree(item) {
            lemma_sound(graph, filter, item.sha, (depth - 1) as nat);
        }
        assert forall|k: int| 0 <= k < all.len() implies ({
            let path = #[trigger] all[k];
            reaches(graph, filter, tree, depth, path) && path[0] >= i
        }) by {
            if k < at.len() {
                if is_tree(item) {
                    let sub = descents(graph, filter, item.sha, (depth - 1) as nat);
                    let inner = sub[k];
                    assert(reaches(graph, filter, item.sha, (depth - 1) as nat, inner));
                    let path = seq![i] + inner;
                    assert(all[k] == path);
                    assert(path.drop_first() == inner);
                    assert(path[0] == i);
                } else {
                    assert(all[k] == seq![i]);
                }
            } else {
                assert(all[k] == from[k - at.len()]);
            }
        }
    }
}

proof fn lemma_complete(graph: Graph, filter: PathFilterView, tree: Seq<char>, depth: nat, path: Seq<int>) -> (k:
    int)
    requires
        reaches(graph, filter, tree, depth, path),
    ensures
        0 <= k < descents(graph, filter, tree, depth).len(),
        descents(graph, filter, tree, depth)[k] == path,
    decreases depth, 1nat, 0nat,
{
    lemma_complete_from(graph, filter, tree, 0, depth, path)
}

proof fn lemma_complete_from(
    graph: Graph,
    filter: PathFilterView,
    tree: Seq<char>,
    i: int,
    depth: nat,
    path: Seq<int>,
) -> (k: int)
    requires
        reaches(graph, filter, tree, depth, path),
        0 <= i <= path[0],
    ensures
        0 <= k < descents_from(graph, filter, graph[tree], i, depth).len(),
        descents_from(graph, filter, graph[tree], i, depth)[k] == path,
    decreases depth, 0nat, graph[tree].len() - i,
{
    let entries = graph[tree];
    let item = entries[i];
    let at = descents_at(graph, filter, item, i, depth);
    if path[0] == i {
        lemma_tree_or_blob(item);
        if path.len() == 1 {
            assert(path == seq![i]);
            0
        } else {
            let inner = path.drop_first();
            let j = lemma_complete(graph, filter, item.sha, (depth - 1) as nat, inner);
            assert(at[j] == seq![i] + inner);
            assert(seq![i] + inner == path);
            j
        }
    } else {
        let j = lemma_complete_from(graph, filter, tree, i + 1, depth, path);
        at.len() + j
    }
}

proof fn lemma_distinct(graph: Graph, filter: PathFilterView, tree: Seq<char>, depth: nat)
    ensures
        descents(graph, filter, tree, depth).no_duplicates(),
    decreases depth, 1nat, 0nat,
{
    if depth > 0 && graph.contains_key(tree) {
        lemma_distinct_from(graph, filter, tree, 0, depth);
    }
}

proof fn lemma_distinct_from(graph: Graph, filter: PathFilterView, tree: Seq<char>, i: int, depth: nat)
    requires
        depth >= 1,
        graph.contains_key(tree),
        0 <= i,
    ensures
        descents_from(graph, filter, graph[tree], i, depth).no_duplicates(),
    decreases depth, 0nat, graph[tree].len() - i,
{
    let entries = graph[tree];
    if i < entries.len() {
        let item = entries[i];
        let at = descents_at(graph, filter, item, i, depth);
        let from = descents_from(graph, filter, entries, i + 1, depth);
        lemma_distinct_from(graph, filter, tree, i + 1, depth);
        lemma_sound_from(graph, filter, tree, i + 1, depth);
        if is_tree(item) {
            let sub = descents(graph, filter, item.sha, (depth - 1) as nat);
            lemma_distinct(graph, filter, item.sha, (depth - 1) as nat);
            assert forall|a: int, b: int| 0 <= a < at.len() && 0 <= b < at.len() && a != b implies at[a]
                != at[b] by {
                assert((seq![i] + sub[a]).drop_first() == sub[a]);
                assert((seq![i] + sub[b]).drop_first() == sub[b]);
            }
        }
        assert forall|a: int, b: int| 0 <= a < at.len() && 0 <= b < from.len() implies at[a] != from[b] by {
            assert(at[a][0] == i);
            assert(from[b][0] >= i + 1);
        }
        vstd::seq_lib::lemma_no_dup_in_concat(at, from);
    }
}

proof fn lemma_matches(graph: Graph, filter: PathFilterView, tree: Seq<char>, depth: nat, root: Seq<char>)
    requires
        search(graph, filter, tree, depth, root).value is Some,
    ensures
        search(graph, filter, tree, depth, root).value->0 == descents(graph, filter, tree, depth).map_values(
            |path: Seq<int>| found_at(graph, tree, root, path),
        ),
    decreases depth, 1nat, 0nat,
{
    if depth > 0 {
        assert(graph[tree].skip(0) == graph[tree]);
        lemma_matches_from(graph, filter, tree, 0, depth, root);
    }
}

proof fn lemma_matches_from(
    graph: Graph,
    filter: PathFilterView,
    tree: Seq<char>,
    i: int,
    depth: nat,
    root: Seq<char>,
)
    requires
        depth >= 1,
        graph.contains_key(tree),
        0 <= i <= graph[tree].len(),
        search_entries(graph, filter, tree, graph[tree].skip(i), depth, root).value is Some,
    ensures
        search_entries(graph, filter, tree, graph[tree].skip(i), depth, root).value->0 == descents_from(
            graph,
            filter,
            graph[tree],
            i,
            depth,
        ).map_values(|path: Seq<int>| found_at(graph, tree, root, path)),
    decreases depth, 0nat, graph[tree].len() - i,
{
    let entries = graph[tree];
    let rest = entries.skip(i);
    let matched = |path: Seq<int>| found_at(graph, tree, root, path);
    if i < entries.len() {
        let item = entries[i];
        assert(rest[0] == item);
        assert(rest.drop_first() == entries.skip(i + 1));
        let at = descents_at(graph, filter, item, i, depth);
        let from = descents_from(graph, filter, entries, i + 1, depth);
        let here = search_entry(graph, filter, tree, item, depth, root);
        lemma_matches_from(graph, filter, tree, i + 1, depth, root);
        if is_tree(item) {
            let below = descend(root, item.path);
            let sub = descents(graph, filter, item.sha, (depth - 1) as nat);
            lemma_matches(graph, filter, item.sha, (depth - 1) as nat, below);
            lemma_sound(graph, filter, item.sha, (depth - 1) as nat);
            assert forall|k: int| 0 <= k < sub.len() implies matched(#[trigger] at[k]) == found_at(
                graph,
                item.sha,
                below,
                sub[k],
            ) by {
                assert(reaches(graph, filter, item.sha, (depth - 1) as nat, sub[k]));
                assert((seq![i] + sub[k]).drop_first() == sub[k]);
            }
            assert(at.map_values(matched) == here.value->0);
        } else if is_blob(item) && filter.accepts(item.path) {
            assert(at.map_values(matched) == here.value->0);
        } else {
            assert(at.map_values(matched) == here.value->0);
        }
        assert((at + from).map_values(matched) == at.map_values(matched) + from.map_values(matched));
    } else {
        assert(descents_from(graph, filter, entries, i, depth).map_values(matched) == Seq::<
            GitSearchResultView,
        >::empty());
    }
}

/// The matches of a search are the blobs that can be reached, each exactly
/// once.
///
/// Where a search of `tree` with `depth` levels ends in matches, these are,
/// one for one and in order, the matches at the end of the ways down from
/// `tree` within `depth` levels. Each of those ways leads to a blob that
/// passes the filter; no way occurs twice; and every way that leads to such
/// a blob is among them. The full path of a match is the root of the search
/// and, behind a slash each, the segments along its way.
pub proof fn lemma_search_matches_what_is_reached(
    graph: Graph,
    filter: PathFilterView,
    tree: Seq<char>,
    depth: nat,
    root: Seq<char>,
)
    requires
        search(graph, filter, tree, depth, root).value is Some,
    ensures
        ({
            let found = search(graph, filter, tree, depth, root).value->0;
            let ways = descents(graph, filter, tree, depth);
            &&& found.len() == ways.len()
            &&& ways.no_duplicates()
            &&& forall|k: int|
                0 <= k < ways.len() ==> {
                    &&& reaches(graph, filter, tree, depth, #[trigger] ways[k])
                    &&& found[k] == found_at(graph, tree, root, ways[k])
                    &&& found[k].fullpath == slash_joined(root, segments(graph, tree, ways[k]))
                }
            &&& forall|path: Seq<int>| #[trigger]
                reaches(graph, filter, tree, depth, path) ==> ways.contains(path)
        }),
{
    let ways = descents(graph, filter, tree, depth);
    lemma_matches(graph, filter, tree, depth, root);
    lemma_distinct(graph, filter, tree, depth);
    lemma_sound(graph, filter, tree, depth);
    assert forall|k: int| 0 <= k < ways.len() implies found_at(graph, tree, root, #[trigger] ways[k]).fullpath
        == slash_joined(root, segments(graph, tree, ways[k])) by {
        assert(reaches(graph, filter, tree, depth, ways[k]));
        lemma_full_path(graph, tree, root, ways[k]);
    }
    assert forall|path: Seq<int>| #[trigger] reaches(graph, filter, tree, depth, path) implies ways.contains(
        path,
    ) by {
        let k = lemma_complete(graph, filter, tree, depth, path);
    }
}

/// A search with no levels left fetches nothing and matches nothing,
/// whatever the tree.
pub proof fn lemma_depth_zero(graph: Graph, filter: PathFilterView, tree: Seq<char>, root: Seq<char>)
    ensures
        search(graph, filter, tree, 0, root) == Walk::done(Seq::empty()),
        search(graph, filter, tree, 0, root).asked.len() == 0,
{
}

} // verus!
