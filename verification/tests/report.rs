use platform::dict::Dict;
use platform::error::Error;
use platform::model::{ComposerLock, ComposerLockPackage, Environment, PlatformApp, PlatformService, Subscription};
use platform::report::{
    drupal, lock_beside, main_environment, main_position, make_beside, manifest, manifest_filter, merge_lock, php,
    service_versions, Report, LOCK, MAKE_SUFFIX, MANIFEST, SEARCH_DEPTH, SERVICES_DIR, SERVICES_FILE,
};
use platform::search::GitSearchResult;

fn subscription() -> Subscription {
    Subscription {
        id: "42".to_string(),
        status: "active".to_string(),
        created_at: "2020-01-01T00:00:00+00:00".to_string(),
        owner: "owner".to_string(),
        plan: "standard".to_string(),
        environments: 3,
        storage: 5120,
        project_id: "abcdefgh".to_string(),
        project_title: "Shop".to_string(),
        project_region: Some("eu-5.platform.sh".to_string()),
        project_region_label: None,
        project_ui: "https://console.platform.sh/x".to_string(),
    }
}

fn environment(name: &str, is_main: bool) -> Environment {
    Environment {
        created_at: None,
        updated_at: None,
        name: name.to_string(),
        machine_name: name.to_string(),
        title: name.to_string(),
        edge_hostname: "edge".to_string(),
        attributes: Dict::new(),
        e_type: "production".to_string(),
        parent: None,
        clone_parent_on_create: false,
        deployment_target: "local".to_string(),
        status: "active".to_string(),
        is_dirty: false,
        is_main,
        is_pr: false,
        has_code: true,
        has_deployment: true,
        last_backup_at: Some("2023-05-01T10:00:00+02:00".to_string()),
        last_active_at: None,
        head_commit: Some("c0".to_string()),
    }
}

fn app(name: &str, kind: &str, flavor: Option<&str>) -> PlatformApp {
    let build = flavor.map(|f| {
        let mut d: Dict<String> = Dict::new();
        d.insert("flavor".to_string(), f.to_string());
        d
    });
    PlatformApp { name: name.to_string(), a_type: kind.to_string(), build, hooks: None, crons: None }
}

fn package(name: &str, version: &str) -> ComposerLockPackage {
    ComposerLockPackage { name: name.to_string(), version: version.to_string(), package_type: "library".to_string() }
}

fn found(path: &str, parent: &str) -> GitSearchResult {
    GitSearchResult {
        path: path.to_string(),
        mode: "100644".to_string(),
        t_type: "blob".to_string(),
        sha: "s".to_string(),
        parent: parent.to_string(),
        fullpath: format!("/{}", path),
    }
}

fn service(kind: &str) -> PlatformService {
    PlatformService { s_type: kind.to_string(), disk: None, size: None, relationships: None }
}

#[test]
fn degraded_row_has_project_fields_and_nothing_else() {
    let row = Report::degraded(&subscription());
    assert_eq!(row.subscription, "abcdefgh");
    assert_eq!(row.title, "Shop");
    assert_eq!(row.plan, "standard");
    assert_eq!(row.storage, 5120);
    assert_eq!(row.region, "eu-5.platform.sh");
    assert_eq!(row.last_backup_at, None);
    assert_eq!(row.a_type, "");
    assert_eq!(row.app, "");
    assert!(row.packages.get("drupal").is_none());
    assert!(row.services.get("mysql").is_none());
}

#[test]
fn degraded_row_of_a_subscription_without_region_has_an_empty_region() {
    let mut s = subscription();
    s.project_region = None;
    assert_eq!(Report::degraded(&s).region, "");
}

#[test]
fn row_without_app_carries_the_backup_time() {
    let row = Report::without_app(&subscription(), &environment("main", true));
    assert_eq!(row.subscription, "abcdefgh");
    assert_eq!(row.last_backup_at, Some("2023-05-01T10:00:00+02:00".to_string()));
    assert_eq!(row.a_type, "");
    assert_eq!(row.app, "");
}

#[test]
fn row_of_an_app_combines_all_sources() {
    let mut packages: Dict<String> = Dict::new();
    packages.insert("drupal".to_string(), "9.5.0".to_string());
    let mut services: Dict<String> = Dict::new();
    services.insert("mysql".to_string(), "10.4".to_string());
    let row = Report::for_app(
        &subscription(),
        &environment("main", true),
        &app("web", "php:8.1", None),
        packages,
        services,
    );
    assert_eq!(row.subscription, "abcdefgh");
    assert_eq!(row.title, "Shop");
    assert_eq!(row.plan, "standard");
    assert_eq!(row.storage, 5120);
    assert_eq!(row.region, "eu-5.platform.sh");
    assert_eq!(row.last_backup_at, Some("2023-05-01T10:00:00+02:00".to_string()));
    assert_eq!(row.a_type, "php:8.1");
    assert_eq!(row.app, "web");
    assert_eq!(row.packages.get("drupal"), Some(&"9.5.0".to_string()));
    assert_eq!(row.services.get("mysql"), Some(&"10.4".to_string()));
}

#[test]
fn main_environment_is_the_first_marked_one() {
    let environments = vec![environment("dev", false), environment("main", true), environment("other", true)];
    assert_eq!(main_position(&environments), Some(1));
    assert_eq!(main_environment(&environments).unwrap().name, "main");
}

#[test]
fn main_environment_is_missing_where_none_is_marked() {
    let environments = vec![environment("dev", false)];
    assert_eq!(main_position(&environments), None);
    assert!(matches!(main_environment(&environments), Err(Error::NotFound)));
    assert!(matches!(main_environment(&Vec::new()), Err(Error::NotFound)));
}

#[test]
fn search_constants() {
    assert_eq!(MANIFEST, ".platform.app.yaml");
    assert_eq!(LOCK, "composer.lock");
    assert_eq!(MAKE_SUFFIX, ".make");
    assert_eq!(SERVICES_DIR, ".platform");
    assert_eq!(SERVICES_FILE, "services.yaml");
    assert_eq!(SEARCH_DEPTH, 2);
    let filter = manifest_filter();
    assert_eq!(filter.names, vec![".platform.app.yaml", "composer.lock"]);
    assert_eq!(filter.suffixes, vec![".make"]);
}

#[test]
fn matches_are_told_apart_by_path_and_parent() {
    let m = found(".platform.app.yaml", "t1");
    assert!(manifest(&m));
    assert!(!manifest(&found("composer.lock", "t1")));
    assert!(lock_beside(&found("composer.lock", "t1"), &m));
    assert!(!lock_beside(&found("composer.lock", "t2"), &m));
    assert!(!lock_beside(&found("x.make", "t1"), &m));
    assert!(make_beside(&found("x.make", "t1"), &m));
    assert!(!make_beside(&found("x.make", "t2"), &m));
    assert!(!make_beside(&found("composer.lock", "t1"), &m));
}

#[test]
fn php_apps_are_known_by_their_type() {
    assert!(php(&app("a", "php:8.1", None)));
    assert!(php(&app("a", "php:", None)));
    assert!(!php(&app("a", "php", None)));
    assert!(!php(&app("a", "nodejs:18", None)));
}

#[test]
fn drupal_flavor_is_read_from_the_build() {
    assert!(drupal(&app("a", "php:7.4", Some("drupal"))));
    assert!(!drupal(&app("a", "php:7.4", Some("composer"))));
    assert!(!drupal(&app("a", "php:7.4", None)));
}

#[test]
fn lock_file_later_package_wins_for_a_shared_canonical_name() {
    let mut aliases: Dict<String> = Dict::new();
    aliases.insert("first/bar".to_string(), "bar".to_string());
    aliases.insert("second/bar".to_string(), "bar".to_string());
    let lock = ComposerLock { packages: vec![package("first/bar", "1.0"), package("second/bar", "2.0")] };
    let mut versions: Dict<String> = Dict::new();
    merge_lock(&mut versions, &aliases, &lock);
    assert_eq!(versions.get("bar"), Some(&"2.0".to_string()));
}

#[test]
fn lock_file_packages_outside_the_alias_table_are_ignored() {
    let mut aliases: Dict<String> = Dict::new();
    aliases.insert("drupal/core".to_string(), "drupal".to_string());
    let lock = ComposerLock {
        packages: vec![package("symfony/yaml", "5.4"), package("drupal/core", "9.5.0"), package("x/y", "1")],
    };
    let mut versions: Dict<String> = Dict::new();
    versions.insert("kept".to_string(), "0".to_string());
    merge_lock(&mut versions, &aliases, &lock);
    assert_eq!(versions.get("drupal"), Some(&"9.5.0".to_string()));
    assert_eq!(versions.get("kept"), Some(&"0".to_string()));
    assert!(versions.get("symfony/yaml").is_none());
    assert!(versions.get("drupal/core").is_none());
}

#[test]
fn service_versions_split_the_type_at_the_first_colon() {
    let services = vec![
        ("db".to_string(), service("mysql:10.4")),
        ("cache".to_string(), service("redis:6.0")),
        ("broken".to_string(), service("solr")),
        ("odd".to_string(), service("a:b:c")),
    ];
    let (versions, engines) = service_versions(&services);
    assert_eq!(versions.get("mysql"), Some(&"10.4".to_string()));
    assert_eq!(versions.get("redis"), Some(&"6.0".to_string()));
    assert_eq!(versions.get("a"), Some(&"b:c".to_string()));
    assert!(versions.get("solr").is_none());
    assert_eq!(engines, vec!["mysql", "redis", "a"]);
}

#[test]
fn service_versions_later_definition_wins_and_each_is_counted() {
    let services =
        vec![("db".to_string(), service("mysql:10.4")), ("db2".to_string(), service("mysql:10.6"))];
    let (versions, engines) = service_versions(&services);
    assert_eq!(versions.get("mysql"), Some(&"10.6".to_string()));
    assert_eq!(engines, vec!["mysql", "mysql"]);
}
