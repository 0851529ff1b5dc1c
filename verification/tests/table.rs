use platform::dict::Dict;
use platform::report::Report;
use platform::table::{decimal_string, engine_columns, heading, record, service_columns, sort_key, sort_rows};

fn strings(items: &[&str]) -> Vec<String> {
    items.iter().map(|s| s.to_string()).collect()
}

fn row(title: &str, app: &str) -> Report {
    let mut packages: Dict<String> = Dict::new();
    packages.insert("drupal".to_string(), "9.5.0".to_string());
    packages.insert("symfony".to_string(), "5.4".to_string());
    let mut services: Dict<String> = Dict::new();
    services.insert("mysql".to_string(), "10.4".to_string());
    Report {
        subscription: "shop1".to_string(),
        title: title.to_string(),
        plan: "standard".to_string(),
        storage: 5120,
        region: "eu-5.platform.sh".to_string(),
        last_backup_at: Some("2023-05-01T10:00:00+02:00".to_string()),
        a_type: "php:8.1".to_string(),
        app: app.to_string(),
        packages,
        services,
    }
}

#[test]
fn decimal_notation_of_whole_numbers() {
    assert_eq!(decimal_string(0), "0");
    assert_eq!(decimal_string(7), "7");
    assert_eq!(decimal_string(10), "10");
    assert_eq!(decimal_string(5120), "5120");
    assert_eq!(decimal_string(-1), "-1");
    assert_eq!(decimal_string(-907), "-907");
    assert_eq!(decimal_string(i32::MAX), "2147483647");
    assert_eq!(decimal_string(i32::MIN), "-2147483648");
}

#[test]
fn decimal_notation_agrees_with_the_standard_library() {
    for n in [0, 1, 9, 10, 11, 99, 100, 101, 1234567890, -1, -10, -99, -100] {
        assert_eq!(decimal_string(n), n.to_string());
    }
}

#[test]
fn heading_has_fixed_then_service_then_package_columns() {
    assert_eq!(
        heading(&strings(&["mysql", "redis"]), &strings(&["drupal", "symfony"])),
        strings(&[
            "Subscription",
            "Title",
            "Plan",
            "Storage",
            "Region",
            "Last Backup at",
            "Type",
            "App",
            "mysql",
            "redis",
            "drupal",
            "symfony",
        ])
    );
    assert_eq!(heading(&Vec::new(), &Vec::new()).len(), 8);
}

#[test]
fn record_fills_the_columns_and_leaves_missing_versions_empty() {
    let r = record(&row("Shop", "web"), &strings(&["mysql", "redis"]), &strings(&["symfony", "laravel", "drupal"]));
    assert_eq!(
        r,
        strings(&[
            "shop1",
            "Shop",
            "standard",
            "5120",
            "eu-5.platform.sh",
            "2023-05-01T10:00:00+02:00",
            "php:8.1",
            "web",
            "10.4",
            "",
            "5.4",
            "",
            "9.5.0",
        ])
    );
}

#[test]
fn record_of_a_row_without_backup_has_an_empty_cell() {
    let mut report = row("Shop", "web");
    report.last_backup_at = None;
    let r = record(&report, &Vec::new(), &Vec::new());
    assert_eq!(r.len(), 8);
    assert_eq!(r[5], "");
}

#[test]
fn sort_key_folds_the_case_of_the_title_only() {
    assert_eq!(sort_key(&row("Shop", "Web")), ("shop".to_string(), "Web".to_string()));
    assert_eq!(sort_key(&row("\u{c4}PFEL", "a")), ("\u{e4}pfel".to_string(), "a".to_string()));
    assert_eq!(sort_key(&row("", "")), ("".to_string(), "".to_string()));
}

#[test]
fn rows_order_by_title_without_case_then_app() {
    let rows =
        vec![row("beta", "x"), row("Alpha", "b"), row("alpha", "a"), row("Beta", "a"), row("a-b", "c"), row("a", "z")];
    let rows = sort_rows(rows);
    let order: Vec<(String, String)> = rows.iter().map(|r| (r.title.clone(), r.app.clone())).collect();
    assert_eq!(
        order,
        vec![
            ("a".to_string(), "z".to_string()),
            ("a-b".to_string(), "c".to_string()),
            ("alpha".to_string(), "a".to_string()),
            ("Alpha".to_string(), "b".to_string()),
            ("Beta".to_string(), "a".to_string()),
            ("beta".to_string(), "x".to_string()),
        ]
    );
}

#[test]
fn engine_columns_keep_the_first_occurrence_of_each_engine() {
    assert_eq!(
        engine_columns(&strings(&["mysql", "redis", "mysql", "solr", "redis"])),
        strings(&["mysql", "redis", "solr"])
    );
    assert!(engine_columns(&Vec::new()).is_empty());
}

#[test]
fn rows_with_equal_keys_keep_their_order() {
    let mut first = row("Shop", "web");
    first.subscription = "one".to_string();
    let mut second = row("SHOP", "web");
    second.subscription = "two".to_string();
    let mut third = row("shop", "web");
    third.subscription = "three".to_string();
    let sorted = sort_rows(vec![first, row("a", "a"), second, third]);
    let order: Vec<&str> = sorted.iter().map(|r| r.subscription.as_str()).collect();
    assert_eq!(order, vec!["shop1", "one", "two", "three"]);
    assert!(sort_rows(Vec::new()).is_empty());
}

#[test]
fn rows_order_as_the_standard_library_orders_their_keys() {
    let titles = ["b", "", "A", "a-b", "a", "\u{e9}", "Z", "aa", "B"];
    let apps = ["x", "", "X", "a"];
    let mut rows = Vec::new();
    for title in titles {
        for app in apps {
            rows.push(row(title, app));
        }
    }
    let mut expected: Vec<(String, String)> = rows.iter().map(sort_key).collect();
    expected.sort();
    let sorted: Vec<(String, String)> = sort_rows(rows).iter().map(sort_key).collect();
    assert_eq!(sorted, expected);
}

#[test]
fn service_columns_are_distinct_and_in_order() {
    assert_eq!(
        service_columns(&strings(&["redis", "mysql", "redis", "solr", "mysql", "Redis"])),
        strings(&["Redis", "mysql", "redis", "solr"])
    );
    assert!(service_columns(&Vec::new()).is_empty());
}
