use platform::model::{GitTree, GitTreeItem};
use platform::dict::Dict;
use platform::error::Error;
use platform::search::{lookup_path, search_stored, GitSearchResult, PathFilter, TreeSearch};

fn item(path: &str, kind: &str, sha: &str) -> GitTreeItem {
    GitTreeItem {
        path: path.to_string(),
        mode: "100644".to_string(),
        t_type: kind.to_string(),
        sha: sha.to_string(),
    }
}

fn tree(id: &str, entries: Vec<GitTreeItem>) -> GitTree {
    GitTree { id: id.to_string(), tree: entries }
}

fn manifest_filter() -> PathFilter {
    PathFilter {
        names: vec![".platform.app.yaml".to_string(), "composer.lock".to_string()],
        suffixes: vec![".make".to_string()],
    }
}

/// Runs a search against trees held in memory and records what it fetched.
fn run(
    trees: &[(&str, Vec<GitTreeItem>)],
    root: &str,
    limit: u8,
    prefix: &str,
) -> (Vec<GitSearchResult>, Vec<String>) {
    let mut search = TreeSearch::new(root, manifest_filter(), limit, prefix.to_string());
    let mut fetched = Vec::new();
    loop {
        let wanted = match search.request() {
            Some(sha) => sha.to_string(),
            None => break,
        };
        fetched.push(wanted.clone());
        let entries = trees
            .iter()
            .find(|(sha, _)| *sha == wanted)
            .map(|(_, entries)| entries.clone())
            .expect("the search asked for a tree that is not there");
        search.supply(tree(&wanted, entries)).unwrap();
    }
    (search.into_results(), fetched)
}

fn sample() -> Vec<(&'static str, Vec<GitTreeItem>)> {
    vec![
        (
            "root",
            vec![
                item("README.md", "blob", "b0"),
                item("web", "tree", "t1"),
                item(".platform.app.yaml", "blob", "b1"),
                item("api", "tree", "t2"),
                item("composer.lock", "blob", "b2"),
            ],
        ),
        (
            "t1",
            vec![
                item("composer.lock", "blob", "b3"),
                item("deep", "tree", "t3"),
                item(".platform.app.yaml", "blob", "b4"),
                item("site.make", "blob", "b5"),
            ],
        ),
        ("t2", vec![item("notes.txt", "blob", "b6")]),
        ("t3", vec![item(".platform.app.yaml", "blob", "b7")]),
    ]
}

#[test]
fn search_with_depth_zero_asks_for_nothing() {
    let search = TreeSearch::new("root", manifest_filter(), 0, "".to_string());
    assert!(search.request().is_none());
    assert!(search.into_results().is_empty());
}

#[test]
fn search_with_depth_one_reads_only_the_root() {
    let (found, fetched) = run(&sample(), "root", 1, "");
    assert_eq!(fetched, vec!["root".to_string()]);
    let paths: Vec<&str> = found.iter().map(|r| r.fullpath.as_str()).collect();
    assert_eq!(paths, vec!["/.platform.app.yaml", "/composer.lock"]);
}

#[test]
fn search_reports_matches_in_depth_first_order() {
    let (found, fetched) = run(&sample(), "root", 2, "");
    assert_eq!(fetched, vec!["root".to_string(), "t1".to_string(), "t2".to_string()]);
    let paths: Vec<&str> = found.iter().map(|r| r.fullpath.as_str()).collect();
    assert_eq!(
        paths,
        vec![
            "/web/composer.lock",
            "/web/.platform.app.yaml",
            "/web/site.make",
            "/.platform.app.yaml",
            "/composer.lock",
        ]
    );
}

#[test]
fn search_with_depth_three_reaches_the_third_level() {
    let (found, fetched) = run(&sample(), "root", 3, "");
    assert_eq!(
        fetched,
        vec!["root".to_string(), "t1".to_string(), "t3".to_string(), "t2".to_string()]
    );
    let paths: Vec<&str> = found.iter().map(|r| r.fullpath.as_str()).collect();
    assert_eq!(
        paths,
        vec![
            "/web/composer.lock",
            "/web/deep/.platform.app.yaml",
            "/web/.platform.app.yaml",
            "/web/site.make",
            "/.platform.app.yaml",
            "/composer.lock",
        ]
    );
}

#[test]
fn search_result_carries_entry_parent_and_full_path() {
    let (found, _) = run(&sample(), "root", 2, "base");
    let first = &found[0];
    assert_eq!(first.path, "composer.lock");
    assert_eq!(first.mode, "100644");
    assert_eq!(first.t_type, "blob");
    assert_eq!(first.sha, "b3");
    assert_eq!(first.parent, "t1");
    assert_eq!(first.fullpath, "base/web/composer.lock");
    let last = &found[4];
    assert_eq!(last.parent, "root");
    assert_eq!(last.fullpath, "base/composer.lock");
}

#[test]
fn search_fetches_a_shared_tree_once_for_each_path_to_it() {
    let trees = vec![
        ("root", vec![item("a", "tree", "same"), item("b", "tree", "same")]),
        ("same", vec![item("x.make", "blob", "m")]),
    ];
    let (found, fetched) = run(&trees, "root", 2, "");
    assert_eq!(fetched, vec!["root".to_string(), "same".to_string(), "same".to_string()]);
    let paths: Vec<&str> = found.iter().map(|r| r.fullpath.as_str()).collect();
    assert_eq!(paths, vec!["/a/x.make", "/b/x.make"]);
}

#[test]
fn search_ignores_entries_that_are_neither_tree_nor_blob() {
    let trees = vec![("root", vec![item("composer.lock", "commit", "c"), item("x.make", "blob", "m")])];
    let (found, _) = run(&trees, "root", 2, "");
    assert_eq!(found.len(), 1);
    assert_eq!(found[0].sha, "m");
}

#[test]
fn search_results_are_visible_while_it_waits() {
    let mut search = TreeSearch::new("root", manifest_filter(), 2, "".to_string());
    search
        .supply(tree(
            "root",
            vec![item("composer.lock", "blob", "l"), item("sub", "tree", "t"), item("x.make", "blob", "m")],
        ))
        .unwrap();
    assert_eq!(search.request(), Some("t"));
    assert_eq!(search.results().len(), 1);
    search.supply(tree("t", vec![])).unwrap();
    assert_eq!(search.request(), None);
    assert_eq!(search.results().len(), 2);
}

#[test]
fn filter_matches_names_exactly_and_suffixes_at_the_end() {
    let filter = manifest_filter();
    assert!(filter.matches(".platform.app.yaml"));
    assert!(filter.matches("composer.lock"));
    assert!(filter.matches("drupal.make"));
    assert!(filter.matches(".make"));
    assert!(!filter.matches("composer.lock.bak"));
    assert!(!filter.matches("make"));
    assert!(!filter.matches("x.make.txt"));
    assert!(!filter.matches(""));
}

#[test]
fn lookup_returns_last_entry_with_the_name() {
    let t = tree("t", vec![item("a", "blob", "1"), item("b", "blob", "2"), item("a", "tree", "3")]);
    let found = lookup_path(&t, "a").unwrap();
    assert_eq!(found.sha, "3");
    assert_eq!(found.t_type, "tree");
    assert_eq!(found.path, "a");
    assert_eq!(found.mode, "100644");
    assert!(lookup_path(&t, "c").is_none());
}

#[test]
fn lookup_does_not_descend() {
    let t = tree("t", vec![item(".platform", "tree", "d")]);
    assert!(lookup_path(&t, "services.yaml").is_none());
    assert_eq!(lookup_path(&t, ".platform").unwrap().sha, "d");
}

#[test]
fn tree_that_was_not_asked_for_is_refused() {
    let mut search = TreeSearch::new("root", manifest_filter(), 1, "".to_string());
    search.supply(tree("root", vec![item("x.make", "blob", "m")])).unwrap();
    assert_eq!(search.request(), None);
    let refused = search.supply(tree("other", vec![item("y.make", "blob", "n")]));
    assert!(matches!(refused, Err(Error::OutOfTurn)));
    assert_eq!(search.into_results().len(), 1);
}

fn store(trees: &[(&str, Vec<GitTreeItem>)]) -> Dict<GitTree> {
    let mut d: Dict<GitTree> = Dict::new();
    for (sha, entries) in trees {
        d.insert(sha.to_string(), tree(sha, entries.clone()));
    }
    d
}

#[test]
fn stored_trees_are_searched_like_fetched_ones() {
    let trees = sample();
    let found = search_stored(&store(&trees), "root", manifest_filter(), 2, "".to_string()).unwrap();
    let (expected, _) = run(&trees, "root", 2, "");
    let paths: Vec<&str> = found.iter().map(|r| r.fullpath.as_str()).collect();
    let expected_paths: Vec<&str> = expected.iter().map(|r| r.fullpath.as_str()).collect();
    assert_eq!(paths, expected_paths);
    assert_eq!(paths.len(), 5);
}

#[test]
fn stored_search_fails_where_a_needed_tree_is_missing() {
    let trees = vec![("root", vec![item("a", "tree", "gone"), item("x.make", "blob", "m")])];
    let failed = search_stored(&store(&trees), "root", manifest_filter(), 2, "".to_string());
    assert!(matches!(failed, Err(Error::NotFound)));
    let shallow = search_stored(&store(&trees), "root", manifest_filter(), 1, "".to_string()).unwrap();
    assert_eq!(shallow.len(), 1);
    let nothing = search_stored(&store(&trees), "absent", manifest_filter(), 0, "".to_string()).unwrap();
    assert!(nothing.is_empty());
}

#[test]
fn tree_duplicate_has_the_same_entries() {
    let t = tree("t", vec![item("a", "blob", "1"), item("b", "tree", "2")]);
    let copy = t.duplicate();
    assert_eq!(copy.id, "t");
    assert_eq!(copy.tree.len(), 2);
    assert_eq!(copy.tree[1].path, "b");
    assert_eq!(copy.tree[1].t_type, "tree");
    assert_eq!(copy.tree[1].sha, "2");
    assert_eq!(copy.tree[0].mode, "100644");
}
