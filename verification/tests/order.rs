use platform::order::{key_at_most, sort_names, str_le};

fn strings(items: &[&str]) -> Vec<String> {
    items.iter().map(|s| s.to_string()).collect()
}

fn key(a: &str, b: &str) -> (String, String) {
    (a.to_string(), b.to_string())
}

#[test]
fn strings_order_character_by_character() {
    assert!(str_le("", ""));
    assert!(str_le("", "a"));
    assert!(!str_le("a", ""));
    assert!(str_le("a", "a"));
    assert!(str_le("a", "ab"));
    assert!(!str_le("ab", "a"));
    assert!(str_le("ab", "b"));
    assert!(str_le("B", "a"));
    assert!(!str_le("a", "B"));
    assert!(str_le("z", "\u{e9}"));
}

#[test]
fn strings_order_as_the_standard_library_orders_them() {
    let samples = ["", "a", "A", "ab", "b", "\u{e9}", "\u{4e2d}", "\u{1f600}", "z", "a-b", "a b", "10", "9"];
    for a in samples {
        for b in samples {
            assert_eq!(str_le(a, b), a <= b, "for {:?} and {:?}", a, b);
        }
    }
}

#[test]
fn keys_order_by_first_then_second_component() {
    assert!(key_at_most(&key("a", "z"), &key("b", "a")));
    assert!(!key_at_most(&key("b", "a"), &key("a", "z")));
    assert!(key_at_most(&key("a", "x"), &key("a", "y")));
    assert!(!key_at_most(&key("a", "y"), &key("a", "x")));
    assert!(key_at_most(&key("a", "x"), &key("a", "x")));
}

#[test]
fn names_are_sorted_and_none_is_lost() {
    assert_eq!(
        sort_names(&strings(&["solr", "mysql", "redis", "mysql", "", "Mysql"])),
        strings(&["", "Mysql", "mysql", "mysql", "redis", "solr"])
    );
    assert!(sort_names(&Vec::new()).is_empty());
}

#[test]
fn names_sort_as_the_standard_library_sorts_them() {
    let names = strings(&["b", "", "a", "\u{e9}", "Z", "aa", "a", "\u{4e2d}", "10", "9"]);
    let mut expected = names.clone();
    expected.sort();
    assert_eq!(sort_names(&names), expected);
}
