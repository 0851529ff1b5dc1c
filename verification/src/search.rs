//! Depth-bounded search of a remote tree for blobs whose path segment passes
//! a filter, and the lookup of one name among the direct entries of a tree.
//!
//! The search does not fetch anything itself. [`TreeSearch`] names the tree it
//! needs next; the caller fetches that tree and supplies it. What the search
//! returns in the end is stated against a model of the remote graph: a map
//! from tree identifiers to their entries.

use crate::dict::Dict;
use crate::error::Error;
use crate::model::{GitTree, GitTreeItem, GitTreeItemView, GitTreeView};
use crate::text::{append, ends_with, str_eq};
use crate::trail::Trail;
use vstd::prelude::*;

verus! {

/// A blob that a search has matched.
#[derive(Debug, Clone)]
pub struct GitSearchResult {
    pub path: String,
    pub mode: String,
    pub t_type: String,
    pub sha: String,
    /// The tree that holds the blob directly.
    pub parent: String,
    /// The path from the root of the search down to the blob.
    pub fullpath: String,
}

/// A match by the characters of its fields.
pub struct GitSearchResultView {
    pub path: Seq<char>,
    pub mode: Seq<char>,
    pub t_type: Seq<char>,
    pub sha: Seq<char>,
    pub parent: Seq<char>,
    pub fullpath: Seq<char>,
}

impl View for GitSearchResult {
    type V = GitSearchResultView;

    open spec fn view(&self) -> GitSearchResultView {
        GitSearchResultView {
            path: self.path@,
            mode: self.mode@,
            t_type: self.t_type@,
            sha: self.sha@,
            parent: self.parent@,
            fullpath: self.fullpath@,
        }
    }
}

/// Which path segments a search is after: the listed names, and every name
/// that ends in one of the listed suffixes.
#[derive(Debug, Clone)]
pub struct PathFilter {
    pub names: Vec<String>,
    pub suffixes: Vec<String>,
}

/// A filter by the characters of its names and suffixes.
pub struct PathFilterView {
    pub names: Seq<Seq<char>>,
    pub suffixes: Seq<Seq<char>>,
}

impl View for PathFilter {
    type V = PathFilterView;

    open spec fn view(&self) -> PathFilterView {
        PathFilterView {
            names: self.names@.map_values(|s: String| s@),
            suffixes: self.suffixes@.map_values(|s: String| s@),
        }
    }
}

impl PathFilterView {
    /// Whether the filter lets `path` through.
    pub open spec fn accepts(self, path: Seq<char>) -> bool {
        ||| exists|i: int| 0 <= i < self.names.len() && #[trigger] self.names[i] == path
        ||| exists|i: int| 0 <= i < self.suffixes.len() && (#[trigger] self.suffixes[i]).is_suffix_of(path)
    }
}

impl PathFilter {
    /// Whether the filter lets `path` through.
    pub fn matches(&self, path: &str) -> (r: bool)
        ensures
            r == self@.accepts(path@),
    {
        let mut i: usize = 0;
        while i < self.names.len()
            invariant
                i <= self.names.len(),
                forall|k: int| 0 <= k < i ==> #[trigger] self@.names[k] != path@,
            decreases self.names.len() - i,
        {
            if str_eq(self.names[i].as_str(), path) {
                assert(self@.names[i as int] == path@);
                return true;
            }
            i += 1;
        }
        let mut j: usize = 0;
        while j < self.suffixes.len()
            invariant
                j <= self.suffixes.len(),
                forall|k: int| 0 <= k < j ==> !(#[trigger] self@.suffixes[k]).is_suffix_of(path@),
            decreases self.suffixes.len() - j,
        {
            if ends_with(path, self.suffixes[j].as_str()) {
                assert(self@.suffixes[j as int].is_suffix_of(path@));
                return true;
            }
            j += 1;
        }
        false
    }
}

/// The remote graph as far as a search can see it: for each tree that can be
/// fetched, its entries in the order in which the API returns them. A tree
/// that is not in the map cannot be fetched.
pub type Graph = Map<Seq<char>, Seq<GitTreeItemView>>;

/// Whether an entry is a sub-tree.
pub open spec fn is_tree(item: GitTreeItemView) -> bool {
    item.t_type == "tree"@
}

/// Whether an entry is a blob.
pub open spec fn is_blob(item: GitTreeItemView) -> bool {
    item.t_type == "blob"@
}

/// The prefix under which the entries of the sub-tree `segment` are found.
pub open spec fn descend(root: Seq<char>, segment: Seq<char>) -> Seq<char> {
    root + "/"@ + segment
}

/// The match that the blob `item` of the tree `parent` gives under `root`.
pub open spec fn hit(item: GitTreeItemView, parent: Seq<char>, root: Seq<char>) -> GitSearchResultView {
    GitSearchResultView {
        path: item.path,
        mode: item.mode,
        t_type: item.t_type,
        sha: item.sha,
        parent,
        fullpath: descend(root, item.path),
    }
}

/// The course of a search: the trees it fetches, in order, and its matches.
pub type Walk = Trail<Seq<char>, Seq<GitSearchResultView>>;

/// Two searches in sequence. The second begins only if the first ends in
/// matches; its matches follow those of the first.
pub open spec fn chain(first: Walk, second: Walk) -> Walk {
    match first.value {
        None => first,
        Some(a) => Trail {
            asked: first.asked + second.asked,
            value: match second.value {
                Some(b) => Some(a + b),
                None => None,
            },
        },
    }
}

/// The search of `tree` with `depth` levels left. At depth zero it fetches
/// nothing and matches nothing. Otherwise it fetches the tree and searches
/// its entries. It is stuck where the tree cannot be fetched.
pub open spec fn search(graph: Graph, filter: PathFilterView, tree: Seq<char>, depth: nat, root: Seq<char>) -> Walk
    decreases depth, 1nat, 0nat,
{
    if depth == 0 {
        Trail::done(Seq::empty())
    } else {
        search_entries(graph, filter, tree, graph[tree], depth, root).asking(tree, graph.contains_key(tree))
    }
}

/// The search of the entries `entries` of `tree`, first to last.
pub open spec fn search_entries(
    graph: Graph,
    filter: PathFilterView,
    tree: Seq<char>,
    entries: Seq<GitTreeItemView>,
    depth: nat,
    root: Seq<char>,
) -> Walk
    decreases depth, 0nat, entries.len(),
{
    if depth == 0 || entries.len() == 0 {
        Trail::done(Seq::empty())
    } else {
        chain(
            search_entry(graph, filter, tree, entries[0], depth, root),
            search_entries(graph, filter, tree, entries.drop_first(), depth, root),
        )
    }
}

/// The search of one entry: a sub-tree is searched one level down under the
/// extended prefix, a blob that passes the filter is one match, anything
/// else is none.
pub open spec fn search_entry(
    graph: Graph,
    filter: PathFilterView,
    tree: Seq<char>,
    item: GitTreeItemView,
    depth: nat,
    root: Seq<char>,
) -> Walk
    decreases depth, 0nat, 0nat,
{
    if depth == 0 {
        Trail::done(Seq::empty())
    } else if is_tree(item) {
        search(graph, filter, item.sha, (depth - 1) as nat, descend(root, item.path))
    } else if is_blob(item) && filter.accepts(item.path) {
        Trail::done(seq![hit(item, tree, root)])
    } else {
        Trail::done(Seq::empty())
    }
}

/// The entries of a tree by their views.
pub open spec fn items_view(items: Seq<GitTreeItem>) -> Seq<GitTreeItemView> {
    items.map_values(|item: GitTreeItem| item@)
}

/// The matches of a search by their views.
pub open spec fn results_view(results: Seq<GitSearchResult>) -> Seq<GitSearchResultView> {
    results.map_values(|r: GitSearchResult| r@)
}

/// A tree whose entries are partly worked off, as the search sees it.
pub struct Level {
    pub tree: Seq<char>,
    /// The entries that are still to come.
    pub rest: Seq<GitTreeItemView>,
    /// The levels left, this one included.
    pub depth: nat,
    pub root: Seq<char>,
}

/// A tree that the search waits for.
pub struct Awaited {
    pub tree: Seq<char>,
    pub depth: nat,
    pub root: Seq<char>,
}

/// The search of the tree that is waited for.
pub open spec fn awaited(graph: Graph, filter: PathFilterView, pending: Option<Awaited>) -> Walk {
    match pending {
        Some(p) => search(graph, filter, p.tree, p.depth, p.root),
        None => Trail::done(Seq::empty()),
    }
}

/// The search of what is left of the open levels, innermost (the last)
/// first.
pub open spec fn outstanding(graph: Graph, filter: PathFilterView, levels: Seq<Level>) -> Walk
    decreases levels.len(),
{
    if levels.len() == 0 {
        Trail::done(Seq::empty())
    } else {
        let top = levels.last();
        chain(
            search_entries(graph, filter, top.tree, top.rest, top.depth, top.root),
            outstanding(graph, filter, levels.drop_last()),
        )
    }
}

/// The rest of a search in a given state: its matches so far, then the
/// search of the awaited tree, then that of the open levels.
pub open spec fn outcome(
    graph: Graph,
    filter: PathFilterView,
    found: Seq<GitSearchResultView>,
    pending: Option<Awaited>,
    levels: Seq<Level>,
) -> Walk {
    chain(Trail::done(found), chain(awaited(graph, filter, pending), outstanding(graph, filter, levels)))
}

proof fn lemma_chain_empty(x: Walk)
    ensures
        chain(Trail::done(Seq::empty()), x) == x,
        chain(x, Trail::done(Seq::empty())) == x,
{
    assert(Seq::<Seq<char>>::empty() + x.asked == x.asked);
    assert(x.asked + Seq::<Seq<char>>::empty() == x.asked);
    if let Some(a) = x.value {
        assert(Seq::<GitSearchResultView>::empty() + a =~= a);
        assert(a + Seq::<GitSearchResultView>::empty() =~= a);
    }
}

proof fn lemma_chain_assoc(x: Walk, y: Walk, z: Walk)
    ensures
        chain(chain(x, y), z) == chain(x, chain(y, z)),
{
    assert((x.asked + y.asked) + z.asked == x.asked + (y.asked + z.asked));
    if let (Some(a), Some(b), Some(c)) = (x.value, y.value, z.value) {
        assert((a + b) + c =~= a + (b + c));
    }
}

proof fn lemma_chain_after(x: Walk, y: Walk, before: Seq<Seq<char>>)
    ensures
        chain(x.after(before), y) == chain(x, y).after(before),
{
    assert((before + x.asked) + y.asked == before + (x.asked + y.asked));
}

proof fn lemma_found_after(found: Seq<GitSearchResultView>, x: Walk, before: Seq<Seq<char>>)
    ensures
        chain(Trail::done(found), x.after(before)) == chain(Trail::done(found), x).after(before),
{
    assert(Seq::<Seq<char>>::empty() + (before + x.asked) == before + (Seq::<Seq<char>>::empty() + x.asked));
}

/// Opening a level for the tree that was awaited is the rest of the search
/// after the fetch of that tree, if the graph holds it with these entries.
proof fn lemma_open_level(
    graph: Graph,
    filter: PathFilterView,
    found: Seq<GitSearchResultView>,
    p: Awaited,
    entries: Seq<GitTreeItemView>,
    levels: Seq<Level>,
)
    requires
        p.depth >= 1,
        graph.contains_key(p.tree),
        graph[p.tree] == entries,
    ensures
        outcome(graph, filter, found, Some(p), levels) == outcome(
            graph,
            filter,
            found,
            None,
            levels.push(Level { tree: p.tree, rest: entries, depth: p.depth, root: p.root }),
        ).after(seq![p.tree]),
{
    let top = Level { tree: p.tree, rest: entries, depth: p.depth, root: p.root };
    let inner = search_entries(graph, filter, p.tree, entries, p.depth, p.root);
    let below = outstanding(graph, filter, levels);
    assert(levels.push(top).drop_last() == levels);
    assert(levels.push(top).last() == top);
    lemma_chain_empty(chain(inner, below));
    lemma_chain_after(inner, below, seq![p.tree]);
    lemma_found_after(found, chain(inner, below), seq![p.tree]);
}

/// Working off the first entry of the innermost level changes nothing.
proof fn lemma_step(
    graph: Graph,
    filter: PathFilterView,
    found: Seq<GitSearchResultView>,
    top: Level,
    levels: Seq<Level>,
)
    requires
        top.depth >= 1,
        top.rest.len() > 0,
    ensures
        ({
            let item = top.rest[0];
            let after = Level { rest: top.rest.drop_first(), ..top };
            let before = outcome(graph, filter, found, None, levels.push(top));
            if is_tree(item) {
                if top.depth > 1 {
                    before == outcome(
                        graph,
                        filter,
                        found,
                        Some(
                            Awaited {
                                tree: item.sha,
                                depth: (top.depth - 1) as nat,
                                root: descend(top.root, item.path),
                            },
                        ),
                        levels.push(after),
                    )
                } else {
                    before == outcome(graph, filter, found, None, levels.push(after))
                }
            } else if is_blob(item) && filter.accepts(item.path) {
                before == outcome(
                    graph,
                    filter,
                    found.push(hit(item, top.tree, top.root)),
                    None,
                    levels.push(after),
                )
            } else {
                before == outcome(graph, filter, found, None, levels.push(after))
            }
        }),
{
    let item = top.rest[0];
    let after = Level { rest: top.rest.drop_first(), ..top };
    let here = search_entry(graph, filter, top.tree, item, top.depth, top.root);
    let later = search_entries(graph, filter, top.tree, after.rest, top.depth, top.root);
    let below = outstanding(graph, filter, levels);
    assert(levels.push(top).drop_last() == levels);
    assert(levels.push(after).drop_last() == levels);
    assert(levels.push(top).last() == top);
    assert(levels.push(after).last() == after);
    assert(outstanding(graph, filter, levels.push(top)) == chain(chain(here, later), below));
    assert(outstanding(graph, filter, levels.push(after)) == chain(later, below));
    lemma_chain_assoc(here, later, below);
    lemma_chain_empty(chain(later, below));
    lemma_chain_empty(chain(here, chain(later, below)));
    lemma_chain_empty(outstanding(graph, filter, levels.push(after)));
    if is_tree(item) {
    } else if is_blob(item) && filter.accepts(item.path) {
        let one = seq![hit(item, top.tree, top.root)];
        lemma_chain_assoc(Trail::done(found), Trail::done(one), chain(later, below));
        assert(found + one =~= found.push(hit(item, top.tree, top.root)));
        assert(Seq::<Seq<char>>::empty() + Seq::<Seq<char>>::empty() == Seq::<Seq<char>>::empty());
    }
}

/// Closing a level that has no entries left changes nothing.
proof fn lemma_close_level(
    graph: Graph,
    filter: PathFilterView,
    found: Seq<GitSearchResultView>,
    top: Level,
    levels: Seq<Level>,
)
    requires
        top.rest.len() == 0,
    ensures
        outcome(graph, filter, found, None, levels.push(top)) == outcome(
            graph,
            filter,
            found,
            None,
            levels,
        ),
{
    assert(levels.push(top).drop_last() == levels);
    assert(levels.push(top).last() == top);
    lemma_chain_empty(outstanding(graph, filter, levels));
}

#[derive(Debug, Clone)]
struct Frame {
    tree: String,
    entries: Vec<GitTreeItem>,
    next: usize,
    depth: u8,
    root: String,
}

impl Frame {
    spec fn level(&self) -> Level {
        Level {
            tree: self.tree@,
            rest: items_view(self.entries@).skip(self.next as int),
            depth: self.depth as nat,
            root: self.root@,
        }
    }

    spec fn ok(&self) -> bool {
        self.next <= self.entries.len() && self.depth >= 1
    }
}

#[derive(Debug, Clone)]
struct Pending {
    tree: String,
    depth: u8,
    root: String,
}

impl Pending {
    spec fn awaited(&self) -> Awaited {
        Awaited { tree: self.tree@, depth: self.depth as nat, root: self.root@ }
    }
}

spec fn levels_of(frames: Seq<Frame>) -> Seq<Level> {
    frames.map_values(|f: Frame| f.level())
}

spec fn awaited_of(pending: Option<Pending>) -> Option<Awaited> {
    match pending {
        Some(p) => Some(p.awaited()),
        None => None,
    }
}

/// A search in progress.
///
/// The search is driven from outside: while [`TreeSearch::request`] names a
/// tree, the caller fetches it and hands it to [`TreeSearch::supply`]. When
/// no tree is asked for any more, [`TreeSearch::into_results`] has the
/// matches, in the order of a depth-first walk.
#[derive(Debug, Clone)]
pub struct TreeSearch {
    filter: PathFilter,
    found: Vec<GitSearchResult>,
    frames: Vec<Frame>,
    pending: Option<Pending>,
}

impl TreeSearch {
    /// The invariant of a search in progress.
    pub closed spec fn wf(&self) -> bool {
        &&& self.pending matches Some(p) ==> p.depth >= 1
        &&& self.pending is None ==> self.frames@.len() == 0
        &&& forall|i: int| 0 <= i < self.frames@.len() ==> (#[trigger] self.frames@[i]).ok()
    }

    /// The matches made so far.
    pub closed spec fn found(&self) -> Seq<GitSearchResultView> {
        results_view(self.found@)
    }

    /// The tree that the search waits for. `None` when the search is over.
    pub closed spec fn wanted(&self) -> Option<Seq<char>> {
        match self.pending {
            Some(p) => Some(p.tree@),
            None => None,
        }
    }

    /// The rest of the search over a given graph: the trees that it will
    /// still fetch, the awaited one first, and the matches it ends with,
    /// those made so far included.
    pub closed spec fn expected(&self, graph: Graph) -> Walk {
        outcome(graph, self.filter@, self.found(), awaited_of(self.pending), levels_of(self.frames@))
    }

    /// A search that waits for nothing is over: it fetches nothing more, and
    /// its matches are those made so far.
    pub proof fn lemma_finished(&self, graph: Graph)
        requires
            self.wf(),
            self.wanted() is None,
        ensures
            self.expected(graph) == Walk::done(self.found()),
    {
        assert(levels_of(self.frames@).len() == 0);
        lemma_chain_empty(Trail::done(self.found()));
        lemma_chain_empty(Trail::done(Seq::empty()));
    }

    /// A search that waits for a tree fetches that tree next; and where the
    /// graph lacks the tree, the search is stuck there.
    pub proof fn lemma_waiting(&self, graph: Graph)
        requires
            self.wf(),
            self.wanted() is Some,
        ensures
            self.expected(graph).asked.len() > 0,
            self.expected(graph).asked[0] == self.wanted()->0,
            !graph.contains_key(self.wanted()->0) ==> self.expected(graph) == Walk::stuck(self.wanted()->0),
    {
        let p = self.pending->0.awaited();
        let first = search(graph, self.filter@, p.tree, p.depth, p.root);
        let below = outstanding(graph, self.filter@, levels_of(self.frames@));
        assert(first.asked[0] == p.tree);
        assert(chain(first, below).asked[0] == p.tree);
        assert(Seq::<Seq<char>>::empty() + chain(first, below).asked == chain(first, below).asked);
        if !graph.contains_key(p.tree) {
            assert(first == Walk::stuck(p.tree));
        }
    }

    /// Starts a search of `tree` that descends at most `limit` levels and
    /// reports full paths under `root`.
    ///
    /// With a limit of zero the search is over at once and asks for no tree.
    pub fn new(tree: &str, filter: PathFilter, limit: u8, root: String) -> (r: Self)
        ensures
            r.wf(),
            r.found() == Seq::<GitSearchResultView>::empty(),
            r.wanted() == if limit == 0 {
                None
            } else {
                Some(tree@)
            },
            forall|graph: Graph| #[trigger]
                r.expected(graph) == search(graph, filter@, tree@, limit as nat, root@),
    {
        let pending = if limit == 0 {
            None
        } else {
            Some(Pending { tree: String::from_str(tree), depth: limit, root })
        };
        let r = TreeSearch { filter, found: Vec::new(), frames: Vec::new(), pending };
        proof {
            assert(r.found() == Seq::<GitSearchResultView>::empty());
            assert(levels_of(r.frames@).len() == 0);
            assert forall|graph: Graph| #[trigger]
                r.expected(graph) == search(graph, filter@, tree@, limit as nat, root@) by {
                let s = search(graph, filter@, tree@, limit as nat, root@);
                lemma_chain_empty(s);
                lemma_chain_empty(chain(s, Trail::done(Seq::empty())));
            }
        }
        r
    }

    /// The tree to fetch next, or `None` when the search is over.
    pub fn request(&self) -> (r: Option<&str>)
        ensures
            match r {
                Some(tree) => self.wanted() == Some(tree@),
                None => self.wanted() is None,
            },
    {
        match &self.pending {
            Some(p) => Some(p.tree.as_str()),
            None => None,
        }
    }

    /// The matches made so far. Once the search is over these are all.
    pub fn results(&self) -> (r: &Vec<GitSearchResult>)
        ensures
            results_view(r@) == self.found(),
    {
        &self.found
    }

    /// Ends the search and hands out its matches.
    pub fn into_results(self) -> (r: Vec<GitSearchResult>)
        ensures
            results_view(r@) == self.found(),
    {
        self.found
    }

    /// Takes the tree that was asked for and goes on until another tree is
    /// needed or the search is over. Where no tree was asked for, the tree
    /// is refused and the search is left as it was.
    ///
    /// Whatever the graph, as long as it holds the awaited tree with exactly
    /// the entries supplied: what the search was going to do is the fetch
    /// of that tree and then what it is going to do now.
    pub fn supply(&mut self, tree: GitTree) -> (r: Result<(), Error>)
        requires
            old(self).wf(),
        ensures
            final(self).wf(),
            old(self).found().is_prefix_of(final(self).found()),
            match r {
                Ok(()) => old(self).wanted() is Some && forall|graph: Graph|
                    graph.contains_key(old(self).wanted()->0) && graph[old(self).wanted()->0] == items_view(
                        tree.tree@,
                    ) ==> old(self).expected(graph) == (#[trigger] final(self).expected(graph)).after(
                        seq![old(self).wanted()->0],
                    ),
                Err(e) => e is OutOfTurn && old(self).wanted() is None && *final(self) == *old(self),
            },
    {
        if self.pending.is_none() {
            return Err(Error::OutOfTurn);
        }
        let ghost key = old(self).wanted()->0;
        let ghost supplied = items_view(tree.tree@);
        let ghost filter = self.filter@;
        let p = self.pending.take().unwrap();
        let mut frame = Frame { tree: p.tree, entries: tree.tree, next: 0, depth: p.depth, root: p.root };
        proof {
            assert(frame.level().rest == supplied);
            assert forall|graph: Graph| graph.contains_key(key) && graph[key] == supplied implies (#[trigger] outcome(
                graph,
                filter,
                self.found(),
                None,
                levels_of(self.frames@).push(frame.level()),
            )).after(seq![key]) == old(self).expected(graph) by {
                lemma_open_level(
                    graph,
                    filter,
                    self.found(),
                    p.awaited(),
                    supplied,
                    levels_of(self.frames@),
                );
            }
        }
        loop
            invariant
                self.pending is None,
                self.filter@ == filter,
                old(self).wanted() is Some,
                key == old(self).wanted()->0,
                supplied == items_view(tree.tree@),
                frame.ok(),
                forall|i: int| 0 <= i < self.frames@.len() ==> (#[trigger] self.frames@[i]).ok(),
                old(self).found().is_prefix_of(self.found()),
                forall|graph: Graph|
                    graph.contains_key(key) && graph[key] == supplied ==> (#[trigger] outcome(
                        graph,
                        filter,
                        self.found(),
                        None,
                        levels_of(self.frames@).push(frame.level()),
                    )).after(seq![key]) == old(self).expected(graph),
            ensures
                final(self).wf(),
                old(self).found().is_prefix_of(self.found()),
                forall|graph: Graph|
                    graph.contains_key(key) && graph[key] == supplied ==> (#[trigger] self.expected(graph)).after(
                        seq![key],
                    ) == old(self).expected(graph),
            decreases self.frames@.len(),
        {
            let ghost open = self.frames@;
            while frame.next < frame.entries.len()
                invariant
                    self.pending is None,
                    self.filter@ == filter,
                    self.frames@ == open,
                    old(self).wanted() is Some,
                    key == old(self).wanted()->0,
                    supplied == items_view(tree.tree@),
                    frame.ok(),
                    forall|i: int| 0 <= i < self.frames@.len() ==> (#[trigger] self.frames@[i]).ok(),
                    old(self).found().is_prefix_of(self.found()),
                    forall|graph: Graph|
                        graph.contains_key(key) && graph[key] == supplied ==> (#[trigger] outcome(
                            graph,
                            filter,
                            self.found(),
                            None,
                            levels_of(self.frames@).push(frame.level()),
                        )).after(seq![key]) == old(self).expected(graph),
                decreases frame.entries.len() - frame.next,
            {
                let ghost before = frame.level();
                let ghost found = self.found();
                let ghost levels = levels_of(self.frames@);
                let item = &frame.entries[frame.next];
                proof {
                    assert(before.rest[0] == item@);
                }
                let is_tree = str_eq(item.t_type.as_str(), "tree");
                let is_blob = str_eq(item.t_type.as_str(), "blob");
                if is_tree {
                    if frame.depth > 1 {
                        let stem = append(frame.root.as_str(), "/");
                        let pending = Pending {
                            tree: item.sha.clone(),
                            depth: frame.depth - 1,
                            root: append(stem.as_str(), item.path.as_str()),
                        };
                        frame.next += 1;
                        proof {
                            let after = frame.level();
                            assert(after.rest == before.rest.drop_first());
                            assert(after == Level { rest: before.rest.drop_first(), ..before });
                            assert(levels_of(self.frames@.push(frame)) == levels.push(after));
                            assert forall|graph: Graph|
                                graph.contains_key(key) && graph[key] == supplied implies (#[trigger] outcome(
                                graph,
                                filter,
                                found,
                                Some(pending.awaited()),
                                levels.push(after),
                            )).after(seq![key]) == old(self).expected(graph) by {
                                lemma_step(graph, filter, found, before, levels);
                            }
                        }
                        self.pending = Some(pending);
                        self.frames.push(frame);
                        proof {
                            assert forall|graph: Graph|
                                graph.contains_key(key) && graph[key] == supplied implies old(self).expected(graph)
                                == (#[trigger] self.expected(graph)).after(seq![key]) by {
                                assert(self.expected(graph) == outcome(
                                    graph,
                                    filter,
                                    found,
                                    Some(pending.awaited()),
                                    levels_of(self.frames@),
                                ));
                            }
                        }
                        return Ok(());
                    }
                } else if is_blob && self.filter.matches(item.path.as_str()) {
                    let result = GitSearchResult {
                        path: item.path.clone(),
                        mode: item.mode.clone(),
                        t_type: item.t_type.clone(),
                        sha: item.sha.clone(),
                        parent: frame.tree.clone(),
                        fullpath: append(append(frame.root.as_str(), "/").as_str(), item.path.as_str()),
                    };
                    assert(result@ == hit(item@, before.tree, before.root));
                    self.found.push(result);
                    assert(self.found() == found.push(hit(item@, before.tree, before.root)));
                }
                frame.next += 1;
                proof {
                    let after = frame.level();
                    assert(after.rest == before.rest.drop_first());
                    assert(after == Level { rest: before.rest.drop_first(), ..before });
                    assert forall|graph: Graph|
                        graph.contains_key(key) && graph[key] == supplied implies (#[trigger] outcome(
                        graph,
                        filter,
                        self.found(),
                        None,
                        levels.push(after),
                    )).after(seq![key]) == old(self).expected(graph) by {
                        lemma_step(graph, filter, found, before, levels);
                    }
                }
            }
            let ghost closed = frame.level();
            let ghost above = levels_of(self.frames@);
            proof {
                assert(closed.rest.len() == 0);
                assert forall|graph: Graph|
                    graph.contains_key(key) && graph[key] == supplied implies (#[trigger] outcome(
                    graph,
                    filter,
                    self.found(),
                    None,
                    above,
                )).after(seq![key]) == old(self).expected(graph) by {
                    lemma_close_level(graph, filter, self.found(), closed, above);
                }
            }
            match self.frames.pop() {
                Some(parent) => {
                    assert(above == levels_of(self.frames@).push(parent.level()));
                    frame = parent;
                },
                None => {
                    assert(levels_of(self.frames@) == above);
                    break ;
                },
            }
        }
        Ok(())
    }
}

/// The graph that a store of trees stands for: each tree that the store
/// holds under its identifier can be fetched, and no other.
pub open spec fn stored(trees: Map<Seq<char>, GitTreeView>) -> Graph {
    Map::new(|sha: Seq<char>| trees.contains_key(sha), |sha: Seq<char>| trees[sha].tree)
}

/// Searches trees that are at hand: every tree that the search asks for is
/// taken from `trees`, until the search is over or asks for a tree that is
/// not there.
pub fn search_stored(trees: &Dict<GitTree>, tree: &str, filter: PathFilter, limit: u8, root: String) -> (r: Result<
    Vec<GitSearchResult>,
    Error,
>)
    ensures
        match r {
            Ok(found) => search(stored(trees@), filter@, tree@, limit as nat, root@).value == Some(
                results_view(found@),
            ),
            Err(e) => e is NotFound && search(stored(trees@), filter@, tree@, limit as nat, root@).value is None,
        },
{
    let ghost graph = stored(trees@);
    let ghost goal = search(graph, filter@, tree@, limit as nat, root@).value;
    let mut walk = TreeSearch::new(tree, filter, limit, root);
    loop
        invariant
            walk.wf(),
            graph == stored(trees@),
            goal == search(stored(trees@), filter@, tree@, limit as nat, root@).value,
            walk.expected(graph).value == goal,
        decreases walk.expected(graph).asked.len(),
    {
        let wanted = match walk.request() {
            Some(sha) => String::from_str(sha),
            None => {
                proof {
                    walk.lemma_finished(graph);
                }
                return Ok(walk.into_results());
            },
        };
        proof {
            walk.lemma_waiting(graph);
        }
        match trees.get(wanted.as_str()) {
            Some(found) => {
                assert(items_view(found.tree@) == graph[wanted@]);
                let supplied = walk.supply(found.duplicate());
                assert(supplied is Ok);
            },
            None => {
                return Err(Error::NotFound);
            },
        }
    }
}

/// The last entry whose path segment is `name`, if there is one.
pub open spec fn last_named(entries: Seq<GitTreeItemView>, name: Seq<char>) -> Option<GitTreeItemView>
    decreases entries.len(),
{
    if entries.len() == 0 {
        None
    } else if entries.last().path == name {
        Some(entries.last())
    } else {
        last_named(entries.drop_last(), name)
    }
}

/// Looks `path` up among the direct entries of `tree`, without descending.
/// Where several entries carry the name, the last one is returned.
pub fn lookup_path(tree: &GitTree, path: &str) -> (r: Option<GitTreeItem>)
    ensures
        match r {
            Some(item) => last_named(items_view(tree.tree@), path@) == Some(item@),
            None => last_named(items_view(tree.tree@), path@) is None,
        },
{
    let ghost entries = items_view(tree.tree@);
    let mut i: usize = tree.tree.len();
    assert(entries.take(i as int) == entries);
    while i > 0
        invariant
            i <= tree.tree.len(),
            entries == items_view(tree.tree@),
            last_named(entries, path@) == last_named(entries.take(i as int), path@),
        decreases i,
    {
        i -= 1;
        let item = &tree.tree[i];
        proof {
            assert(entries.take(i + 1).last() == item@);
            assert(entries.take(i + 1).drop_last() == entries.take(i as int));
        }
        if str_eq(item.path.as_str(), path) {
            return Some(
                GitTreeItem {
                    path: item.path.clone(),
                    mode: item.mode.clone(),
                    t_type: item.t_type.clone(),
                    sha: item.sha.clone(),
                },
            );
        }
    }
    None
}

} // verus!
