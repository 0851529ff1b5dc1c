use base64::Engine;
use platform::dict::Dict;
use platform::error::Error;
use platform::model::{
    ComposerLock, ComposerLockPackage, Environment, GitBlob, GitCommit, GitTree, GitTreeItem, PlatformApp,
    PlatformService, Subscription,
};
use platform::scan::{Answer, Findings, Request, Scan};

fn subscription() -> Subscription {
    Subscription {
        id: "42".to_string(),
        status: "active".to_string(),
        created_at: "2020-01-01T00:00:00+00:00".to_string(),
        owner: "owner".to_string(),
        plan: "standard".to_string(),
        environments: 3,
        storage: 5120,
        project_id: "shop1".to_string(),
        project_title: "Shop".to_string(),
        project_region: Some("eu-5.platform.sh".to_string()),
        project_region_label: None,
        project_ui: "https://console.platform.sh/x".to_string(),
    }
}

fn environment(name: &str, is_main: bool, head_commit: Option<&str>) -> Environment {
    Environment {
        created_at: None,
        updated_at: None,
        name: name.to_string(),
        machine_name: name.to_string(),
        title: name.to_string(),
        edge_hostname: "edge".to_string(),
        attributes: Dict::new(),
        e_type: "production".to_string(),
        parent: None,
        clone_parent_on_create: false,
        deployment_target: "local".to_string(),
        status: "active".to_string(),
        is_dirty: false,
        is_main,
        is_pr: false,
        has_code: true,
        has_deployment: true,
        last_backup_at: Some("2023-05-01T10:00:00+02:00".to_string()),
        last_active_at: None,
        head_commit: head_commit.map(|c| c.to_string()),
    }
}

fn item(path: &str, kind: &str, sha: &str) -> GitTreeItem {
    GitTreeItem { path: path.to_string(), mode: "100644".to_string(), t_type: kind.to_string(), sha: sha.to_string() }
}

/// A project held in memory. Blobs are kept as their encoded content.
struct Remote {
    environments: Option<Vec<Environment>>,
    commits: Vec<(String, String)>,
    trees: Vec<(String, Vec<GitTreeItem>)>,
    blobs: Vec<(String, String)>,
}

impl Remote {
    fn new(environments: Option<Vec<Environment>>) -> Remote {
        Remote { environments, commits: Vec::new(), trees: Vec::new(), blobs: Vec::new() }
    }

    fn commit(mut self, sha: &str, tree: &str) -> Remote {
        self.commits.push((sha.to_string(), tree.to_string()));
        self
    }

    fn tree(mut self, sha: &str, entries: Vec<GitTreeItem>) -> Remote {
        self.trees.push((sha.to_string(), entries));
        self
    }

    fn blob(mut self, sha: &str, text: &str) -> Remote {
        let content = base64::engine::general_purpose::STANDARD.encode(text.as_bytes());
        self.blobs.push((sha.to_string(), content));
        self
    }

    fn raw_blob(mut self, sha: &str, content: &str) -> Remote {
        self.blobs.push((sha.to_string(), content.to_string()));
        self
    }
}

/// A stand-in for the manifest parser: `name`, `type` and `flavor` lines.
fn parse_manifest(bytes: &[u8]) -> Option<PlatformApp> {
    let text = std::str::from_utf8(bytes).ok()?;
    let mut name = None;
    let mut kind = None;
    let mut build = None;
    for line in text.lines() {
        let (key, value) = line.split_once('=')?;
        match key {
            "name" => name = Some(value.to_string()),
            "type" => kind = Some(value.to_string()),
            "flavor" => {
                let mut d: Dict<String> = Dict::new();
                d.insert("flavor".to_string(), value.to_string());
                build = Some(d);
            }
            _ => return None,
        }
    }
    Some(PlatformApp { name: name?, a_type: kind?, build, hooks: None, crons: None })
}

/// A stand-in for the lock file parser: one `name version` pair per line.
fn parse_lock(bytes: &[u8]) -> Option<ComposerLock> {
    let text = std::str::from_utf8(bytes).ok()?;
    let mut packages = Vec::new();
    for line in text.lines() {
        let (name, version) = line.split_once(' ')?;
        packages.push(ComposerLockPackage {
            name: name.to_string(),
            version: version.to_string(),
            package_type: "library".to_string(),
        });
    }
    Some(ComposerLock { packages })
}

/// A stand-in for the service file parser: one `name type` pair per line.
fn parse_services(bytes: &[u8]) -> Option<Vec<(String, PlatformService)>> {
    let text = std::str::from_utf8(bytes).ok()?;
    let mut services = Vec::new();
    for line in text.lines() {
        let (name, kind) = line.split_once(' ')?;
        services.push((
            name.to_string(),
            PlatformService { s_type: kind.to_string(), disk: None, size: None, relationships: None },
        ));
    }
    Some(services)
}

/// Drives a scan against a project in memory. Returns what was gathered and
/// the addresses requested, or the address of the request that failed.
fn inspect(remote: &Remote, aliases: Dict<String>) -> Result<(Findings, Vec<String>), String> {
    let mut scan = Scan::new(subscription(), aliases);
    let mut trace = Vec::new();
    loop {
        let answer = match scan.request() {
            Request::Nothing => break,
            Request::Environments { url } => {
                trace.push(url);
                Answer::Environments(remote.environments.clone())
            }
            Request::Commit { url, sha } => {
                trace.push(url.clone());
                let tree = remote.commits.iter().find(|(s, _)| s == sha).ok_or(url)?.1.clone();
                Answer::Commit(GitCommit { id: sha.to_string(), sha: sha.to_string(), tree })
            }
            Request::Tree { url, sha } => {
                trace.push(url.clone());
                let entries = remote.trees.iter().find(|(s, _)| s == sha).ok_or(url)?.1.clone();
                Answer::Tree(GitTree { id: sha.to_string(), tree: entries })
            }
            Request::Blob { url, sha } => {
                trace.push(url.clone());
                let content = remote.blobs.iter().find(|(s, _)| s == sha).ok_or(url)?.1.clone();
                Answer::Blob(GitBlob { sha: sha.to_string(), size: 0, encoding: "base64".to_string(), content })
            }
            Request::Services { bytes } => Answer::Services(parse_services(bytes)),
            Request::Manifest { bytes } => Answer::Manifest(parse_manifest(bytes)),
            Request::Lock { bytes } => Answer::Lock(parse_lock(bytes)),
        };
        scan.step(answer).expect("the answer is of the kind that was asked for");
    }
    Ok((scan.finish(), trace))
}

fn aliases(pairs: &[(&str, &str)]) -> Dict<String> {
    let mut d: Dict<String> = Dict::new();
    for (alias, canonical) in pairs {
        d.insert(alias.to_string(), canonical.to_string());
    }
    d
}

fn short(trace: &[String]) -> Vec<String> {
    trace.iter().map(|url| url.replace("https://api.platform.sh/projects/shop1/", "")).collect()
}

#[test]
fn failed_environment_listing_gives_one_degraded_row() {
    let remote = Remote::new(None);
    let (findings, trace) = inspect(&remote, aliases(&[])).unwrap();
    assert_eq!(short(&trace), vec!["environments"]);
    assert_eq!(findings.rows.len(), 1);
    let row = &findings.rows[0];
    assert_eq!(row.subscription, "shop1");
    assert_eq!(row.title, "Shop");
    assert_eq!(row.plan, "standard");
    assert_eq!(row.storage, 5120);
    assert_eq!(row.region, "eu-5.platform.sh");
    assert_eq!(row.last_backup_at, None);
    assert_eq!(row.a_type, "");
    assert_eq!(row.app, "");
    assert!(row.packages.get("drupal").is_none());
    assert!(row.services.get("mysql").is_none());
    assert!(findings.unreadable.is_empty());
    assert!(findings.engines.is_empty());
}

#[test]
fn project_without_main_environment_gives_no_row() {
    let remote = Remote::new(Some(vec![environment("dev", false, Some("c0"))]));
    let (findings, trace) = inspect(&remote, aliases(&[])).unwrap();
    assert_eq!(short(&trace), vec!["environments"]);
    assert!(findings.rows.is_empty());
}

#[test]
fn main_environment_without_commit_gives_one_row_without_app() {
    let remote = Remote::new(Some(vec![environment("dev", false, Some("c0")), environment("main", true, None)]));
    let (findings, trace) = inspect(&remote, aliases(&[])).unwrap();
    assert_eq!(short(&trace), vec!["environments"]);
    assert_eq!(findings.rows.len(), 1);
    assert_eq!(findings.rows[0].subscription, "shop1");
    assert_eq!(findings.rows[0].last_backup_at, Some("2023-05-01T10:00:00+02:00".to_string()));
    assert_eq!(findings.rows[0].app, "");
    assert_eq!(findings.rows[0].a_type, "");
}

#[test]
fn php_app_with_sibling_lock_file_reports_the_aliased_version() {
    let remote = Remote::new(Some(vec![environment("main", true, Some("c0"))]))
        .commit("c0", "root")
        .tree("root", vec![item(".platform.app.yaml", "blob", "m"), item("composer.lock", "blob", "l")])
        .blob("m", "name=web\ntype=php:8.1")
        .blob("l", "symfony/yaml 5.4\ndrupal/core 9.5.0");
    let (findings, trace) = inspect(&remote, aliases(&[("drupal/core", "drupal")])).unwrap();
    assert_eq!(
        short(&trace),
        vec!["environments", "git/commits/c0", "git/trees/root", "git/trees/root", "git/blobs/m", "git/blobs/l"]
    );
    assert_eq!(findings.rows.len(), 1);
    let row = &findings.rows[0];
    assert_eq!(row.app, "web");
    assert_eq!(row.a_type, "php:8.1");
    assert_eq!(row.subscription, "shop1");
    assert_eq!(row.last_backup_at, Some("2023-05-01T10:00:00+02:00".to_string()));
    assert_eq!(row.packages.get("drupal"), Some(&"9.5.0".to_string()));
    assert!(row.packages.get("symfony/yaml").is_none());
    assert!(findings.unreadable.is_empty());
}

#[test]
fn unreadable_manifest_is_noted_and_the_next_one_still_gives_its_row() {
    let remote = Remote::new(Some(vec![environment("main", true, Some("c0"))]))
        .commit("c0", "root")
        .tree("root", vec![item("broken", "tree", "t1"), item("good", "tree", "t2")])
        .tree("t1", vec![item(".platform.app.yaml", "blob", "m1")])
        .tree("t2", vec![item(".platform.app.yaml", "blob", "m2")])
        .blob("m1", "this is not a manifest")
        .blob("m2", "name=api\ntype=nodejs:18");
    let (findings, _) = inspect(&remote, aliases(&[])).unwrap();
    assert_eq!(findings.unreadable, vec!["/broken/.platform.app.yaml"]);
    assert_eq!(findings.rows.len(), 1);
    assert_eq!(findings.rows[0].app, "api");
    assert_eq!(findings.rows[0].a_type, "nodejs:18");
}

#[test]
fn manifest_that_does_not_decode_is_noted_as_unreadable() {
    let remote = Remote::new(Some(vec![environment("main", true, Some("c0"))]))
        .commit("c0", "root")
        .tree("root", vec![item(".platform.app.yaml", "blob", "m1")])
        .raw_blob("m1", "***");
    let (findings, _) = inspect(&remote, aliases(&[])).unwrap();
    assert_eq!(findings.unreadable, vec!["/.platform.app.yaml"]);
    assert!(findings.rows.is_empty());
}

#[test]
fn services_are_read_from_the_fixed_path_and_reported_on_every_row() {
    let remote = Remote::new(Some(vec![environment("main", true, Some("c0"))]))
        .commit("c0", "root")
        .tree(
            "root",
            vec![
                item(".platform", "tree", "dot"),
                item("a", "tree", "ta"),
                item("b", "tree", "tb"),
            ],
        )
        .tree("dot", vec![item("routes.yaml", "blob", "r"), item("services.yaml", "blob", "s")])
        .tree("ta", vec![item(".platform.app.yaml", "blob", "ma")])
        .tree("tb", vec![item(".platform.app.yaml", "blob", "mb")])
        .blob("s", "db mysql:10.4\nsearch solr\ncache redis:6.0\ndb2 mysql:10.6")
        .blob("ma", "name=a\ntype=python:3.9")
        .blob("mb", "name=b\ntype=php:8.0");
    let (findings, trace) = inspect(&remote, aliases(&[])).unwrap();
    assert_eq!(
        short(&trace),
        vec![
            "environments",
            "git/commits/c0",
            "git/trees/root",
            "git/trees/dot",
            "git/blobs/s",
            "git/trees/root",
            "git/trees/dot",
            "git/trees/ta",
            "git/trees/tb",
            "git/blobs/ma",
            "git/blobs/mb",
        ]
    );
    assert_eq!(findings.engines, vec!["mysql", "redis", "mysql"]);
    assert_eq!(findings.rows.len(), 2);
    for row in &findings.rows {
        assert_eq!(row.services.get("mysql"), Some(&"10.6".to_string()));
        assert_eq!(row.services.get("redis"), Some(&"6.0".to_string()));
        assert!(row.services.get("solr").is_none());
    }
    assert_eq!(findings.rows[0].app, "a");
    assert_eq!(findings.rows[1].app, "b");
}

#[test]
fn unreadable_service_file_contributes_nothing() {
    let remote = Remote::new(Some(vec![environment("main", true, Some("c0"))]))
        .commit("c0", "root")
        .tree("root", vec![item(".platform", "tree", "dot"), item(".platform.app.yaml", "blob", "m")])
        .tree("dot", vec![item("services.yaml", "blob", "s")])
        .blob("s", "nospace")
        .blob("m", "name=a\ntype=golang:1.20");
    let (findings, _) = inspect(&remote, aliases(&[])).unwrap();
    assert!(findings.engines.is_empty());
    assert_eq!(findings.rows.len(), 1);
    assert!(findings.rows[0].services.get("mysql").is_none());
}

#[test]
fn drupal_flavor_reads_make_files_after_lock_files() {
    let remote = Remote::new(Some(vec![environment("main", true, Some("c0"))]))
        .commit("c0", "root")
        .tree(
            "root",
            vec![
                item("a.make", "blob", "k1"),
                item(".platform.app.yaml", "blob", "m"),
                item("composer.lock", "blob", "l"),
                item("b.make", "blob", "k2"),
            ],
        )
        .blob("m", "name=legacy\ntype=php:7.4\nflavor=drupal")
        .blob("l", "drupal/core 8.9.0")
        .blob("k1", "api = 2\nprojects[drupal][version] = 7.1\nprojects[drupal][version] = 7.2\n")
        .blob("k2", "projects[drupal][version] = 7.98\n");
    let (findings, trace) = inspect(&remote, aliases(&[("drupal/core", "drupal")])).unwrap();
    assert_eq!(
        short(&trace)[4..],
        ["git/blobs/m".to_string(), "git/blobs/l".to_string(), "git/blobs/k1".to_string(), "git/blobs/k2".to_string()]
    );
    assert_eq!(findings.rows.len(), 1);
    assert_eq!(findings.rows[0].packages.get("drupal"), Some(&"7.98".to_string()));
}

#[test]
fn make_files_are_not_read_without_the_drupal_flavor() {
    let remote = Remote::new(Some(vec![environment("main", true, Some("c0"))]))
        .commit("c0", "root")
        .tree("root", vec![item(".platform.app.yaml", "blob", "m"), item("b.make", "blob", "k2")])
        .blob("m", "name=legacy\ntype=php:7.4\nflavor=composer");
    let (findings, trace) = inspect(&remote, aliases(&[])).unwrap();
    assert_eq!(short(&trace)[4..], ["git/blobs/m".to_string()]);
    assert_eq!(findings.rows.len(), 1);
    assert!(findings.rows[0].packages.get("drupal").is_none());
}

#[test]
fn lock_files_are_not_read_for_other_runtimes() {
    let remote = Remote::new(Some(vec![environment("main", true, Some("c0"))]))
        .commit("c0", "root")
        .tree("root", vec![item(".platform.app.yaml", "blob", "m"), item("composer.lock", "blob", "l")])
        .blob("m", "name=api\ntype=nodejs:18");
    let (findings, trace) = inspect(&remote, aliases(&[("drupal/core", "drupal")])).unwrap();
    assert_eq!(short(&trace)[4..], ["git/blobs/m".to_string()]);
    assert_eq!(findings.rows.len(), 1);
    assert!(findings.rows[0].packages.get("drupal").is_none());
}

#[test]
fn lock_file_of_another_directory_is_not_merged() {
    let remote = Remote::new(Some(vec![environment("main", true, Some("c0"))]))
        .commit("c0", "root")
        .tree("root", vec![item("web", "tree", "t1"), item("composer.lock", "blob", "l0")])
        .tree("t1", vec![item(".platform.app.yaml", "blob", "m")])
        .blob("m", "name=web\ntype=php:8.1")
        .blob("l0", "drupal/core 9.5.0");
    let (findings, _) = inspect(&remote, aliases(&[("drupal/core", "drupal")])).unwrap();
    assert_eq!(findings.rows.len(), 1);
    assert!(findings.rows[0].packages.get("drupal").is_none());
}

#[test]
fn unreadable_lock_file_contributes_nothing() {
    let remote = Remote::new(Some(vec![environment("main", true, Some("c0"))]))
        .commit("c0", "root")
        .tree("root", vec![item(".platform.app.yaml", "blob", "m"), item("composer.lock", "blob", "l")])
        .blob("m", "name=web\ntype=php:8.1")
        .blob("l", "nospace");
    let (findings, _) = inspect(&remote, aliases(&[("drupal/core", "drupal")])).unwrap();
    assert_eq!(findings.rows.len(), 1);
    assert!(findings.rows[0].packages.get("drupal").is_none());
    assert!(findings.unreadable.is_empty());
}

#[test]
fn manifests_below_the_depth_bound_are_not_found() {
    let remote = Remote::new(Some(vec![environment("main", true, Some("c0"))]))
        .commit("c0", "root")
        .tree("root", vec![item("a", "tree", "t1")])
        .tree("t1", vec![item("b", "tree", "t2")])
        .tree("t2", vec![item(".platform.app.yaml", "blob", "m")])
        .blob("m", "name=deep\ntype=php:8.1");
    let (findings, trace) = inspect(&remote, aliases(&[])).unwrap();
    assert!(findings.rows.is_empty());
    assert!(!short(&trace).contains(&"git/trees/t2".to_string()));
}

#[test]
fn missing_object_stops_the_scan_at_its_request() {
    let remote = Remote::new(Some(vec![environment("main", true, Some("c0"))])).commit("c0", "root");
    let failed = inspect(&remote, aliases(&[])).err().unwrap();
    assert_eq!(failed, "https://api.platform.sh/projects/shop1/git/trees/root");
}

#[test]
fn answer_of_another_kind_is_refused_and_changes_nothing() {
    let mut scan = Scan::new(subscription(), aliases(&[]));
    let refused = scan.step(Answer::Commit(GitCommit {
        id: "c".to_string(),
        sha: "c".to_string(),
        tree: "t".to_string(),
    }));
    assert!(matches!(refused, Err(Error::OutOfTurn)));
    assert!(matches!(scan.request(), Request::Environments { .. }));
    scan.step(Answer::Environments(None)).unwrap();
    assert!(matches!(scan.request(), Request::Nothing));
    assert!(matches!(scan.step(Answer::Environments(None)), Err(Error::OutOfTurn)));
    assert_eq!(scan.finish().rows.len(), 1);
}
