use platform::config::Config;

fn strings(items: &[&str]) -> Vec<String> {
    items.iter().map(|s| s.to_string()).collect()
}

#[test]
fn alias_table_resolves_packages_and_framework_aliases() {
    let config = Config {
        frameworks: Some(vec![("bar".to_string(), strings(&["baz"]))]),
        packages: Some(strings(&["foo"])),
    };
    let map = config.packages_map();
    assert_eq!(map.get("baz"), Some(&"bar".to_string()));
    assert_eq!(map.get("foo"), Some(&"foo".to_string()));
    assert!(map.get("bar").is_none());
    assert!(map.get("qux").is_none());
}

#[test]
fn alias_table_of_an_empty_configuration_is_empty() {
    let config = Config { frameworks: None, packages: None };
    let map = config.packages_map();
    assert!(map.get("foo").is_none());
    assert!(config.report_cols().is_empty());
}

#[test]
fn alias_table_lets_a_framework_take_over_a_package_name() {
    let config = Config {
        frameworks: Some(vec![
            ("drupal".to_string(), strings(&["drupal/core", "drupal/core-recommended"])),
            ("symfony".to_string(), strings(&["symfony/symfony", "drupal/core"])),
        ]),
        packages: Some(strings(&["drupal/core", "guzzlehttp/guzzle"])),
    };
    let map = config.packages_map();
    assert_eq!(map.get("drupal/core"), Some(&"symfony".to_string()));
    assert_eq!(map.get("drupal/core-recommended"), Some(&"drupal".to_string()));
    assert_eq!(map.get("symfony/symfony"), Some(&"symfony".to_string()));
    assert_eq!(map.get("guzzlehttp/guzzle"), Some(&"guzzlehttp/guzzle".to_string()));
}

#[test]
fn report_columns_list_frameworks_then_packages() {
    let config = Config {
        frameworks: Some(vec![
            ("drupal".to_string(), strings(&["drupal/core"])),
            ("symfony".to_string(), strings(&[])),
        ]),
        packages: Some(strings(&["b", "a"])),
    };
    assert_eq!(config.report_cols(), strings(&["drupal", "symfony", "b", "a"]));
}

#[test]
fn report_columns_without_frameworks_are_the_packages() {
    let config = Config { frameworks: None, packages: Some(strings(&["x"])) };
    assert_eq!(config.report_cols(), strings(&["x"]));
}
