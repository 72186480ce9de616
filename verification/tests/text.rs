use meta_hybrid::order::{key_precedes, sort_by_key};
use meta_hybrid::paths::{clone_strings, path_join};
use meta_hybrid::text::{bytes_eq, bytes_lt, contains_str, str_eq, str_less, text_chars};

fn strings(items: &[&str]) -> Vec<String> {
    items.iter().map(|s| s.to_string()).collect()
}

#[test]
fn string_order_is_that_of_the_bytes() {
    assert!(str_less("a", "b"));
    assert!(!str_less("b", "a"));
    assert!(!str_less("a", "a"));
    assert!(str_less("a", "aa"));
    assert!(str_less("", "a"));
    assert!(!str_less("", ""));
    assert!(str_less("Z", "a"));
    assert!(str_less("z", "é"));
    assert!(str_less("é", "日"));
    for (a, b) in [("abc", "abd"), ("x", "xy"), ("10", "9"), ("é", "z"), ("", "")] {
        assert_eq!(str_less(a, b), a < b);
        assert_eq!(str_less(b, a), b < a);
        assert_eq!(str_eq(a, b), a == b);
    }
}

#[test]
fn byte_comparisons() {
    assert!(bytes_lt(&[1, 2], &[1, 3]));
    assert!(bytes_lt(&[1], &[1, 0]));
    assert!(!bytes_lt(&[2], &[1, 9]));
    assert!(bytes_eq(&[1, 2], &[1, 2]));
    assert!(!bytes_eq(&[1, 2], &[1, 2, 3]));
    assert!(!bytes_eq(&[1, 2], &[1, 3]));
}

#[test]
fn sorting_is_stable_and_follows_direction() {
    assert_eq!(
        sort_by_key(strings(&["b", "a", "c", "a"]), false),
        strings(&["a", "a", "b", "c"])
    );
    assert_eq!(
        sort_by_key(strings(&["b", "a", "c", "a"]), true),
        strings(&["c", "b", "a", "a"])
    );
    assert_eq!(sort_by_key(Vec::<String>::new(), true), Vec::<String>::new());
    let mut expected = strings(&["zz", "m", "ab", "aa", "é", "Z", "0"]);
    let sorted = sort_by_key(expected.clone(), false);
    expected.sort();
    assert_eq!(sorted, expected);
    assert!(key_precedes("a", "b", false));
    assert!(key_precedes("b", "a", true));
    assert!(!key_precedes("a", "a", true));
}

#[test]
fn paths_join_as_on_unix() {
    assert_eq!(path_join("/a", "b"), "/a/b");
    assert_eq!(path_join("/a/", "b"), "/a/b");
    assert_eq!(path_join("", "b"), "b");
    assert_eq!(path_join("/a", "/b"), "/b");
    assert_eq!(path_join("/", "system"), "/system");
    assert_eq!(path_join("/a", ""), "/a/");
    for (base, name) in [("/a", "b"), ("/a/", "b"), ("", "b"), ("/a", "/b"), ("a/b", "c/d"), ("/é", "日")] {
        let expected = std::path::Path::new(base).join(name);
        assert_eq!(path_join(base, name), expected.to_string_lossy());
    }
}

#[test]
fn small_helpers() {
    let v = strings(&["x", "y"]);
    assert!(contains_str(&v, "y"));
    assert!(!contains_str(&v, "z"));
    assert_eq!(clone_strings(&v), v);
    assert_eq!(text_chars("aé日"), vec!['a', 'é', '日']);
}
