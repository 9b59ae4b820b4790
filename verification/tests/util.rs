use core::cmp::Ordering;
use msvcup::util::{
    alloc_url_percent_decoded, basename_from_url, is_valid_version, order_dotted_alphabetical,
    order_dotted_numeric, order_numeric, scan_id_part, scan_id_version, scan_to, split_dotted,
};

#[test]
fn test_order_dotted_numeric() {
    assert_eq!(order_dotted_numeric("0.1", "0.1"), Ordering::Equal);
    assert_eq!(order_dotted_numeric("0", "0.1"), Ordering::Less);
    assert_eq!(order_dotted_numeric("0.1", "0"), Ordering::Greater);
    assert_eq!(order_dotted_numeric("9", "10"), Ordering::Less);
}

#[test]
fn test_order_numeric() {
    assert_eq!(order_numeric("0", "0"), Ordering::Equal);
    assert_eq!(order_numeric("0", "1"), Ordering::Less);
    assert_eq!(order_numeric("1", "0"), Ordering::Greater);
    assert_eq!(order_numeric("9", "10"), Ordering::Less);
    assert_eq!(order_numeric("10", "9"), Ordering::Greater);
    assert_eq!(order_numeric("0", "a"), Ordering::Less);
    assert_eq!(order_numeric("a", "0"), Ordering::Greater);
}

#[test]
fn test_order_dotted_numeric_digit_groups() {
    assert_eq!(order_dotted_numeric("14.9", "14.10"), Ordering::Less);
    assert_eq!(order_dotted_numeric("14.10", "14.9"), Ordering::Greater);
    assert_eq!(order_dotted_numeric("14.40.33807", "14.40.33807"), Ordering::Equal);
}

#[test]
fn test_order_dotted_alphabetical() {
    assert_eq!(order_dotted_alphabetical("a.b", "a.b"), Ordering::Equal);
    assert_eq!(order_dotted_alphabetical("a.b", "a.c"), Ordering::Less);
    assert_eq!(order_dotted_alphabetical("b", "a.c"), Ordering::Greater);
}

#[test]
fn test_is_valid_version() {
    assert!(is_valid_version("14.40.33807"));
    assert!(is_valid_version("0"));
    assert!(!is_valid_version(""));
    assert!(!is_valid_version("14.40a"));
    assert!(!is_valid_version("14."));
    assert!(!is_valid_version(".14"));
}

#[test]
fn test_scan_id_version() {
    let (v, end) = scan_id_version("14.30.17.6", 0);
    assert_eq!(v, "14.30.17.6");
    assert_eq!(end, 10);
    let (v, end) = scan_id_version("14.30.Tools", 0);
    assert_eq!(v, "14.30");
    assert_eq!(end, 5);
    let (v, end) = scan_id_version("abc", 0);
    assert_eq!(v, "");
    assert_eq!(end, 0);
}

#[test]
fn test_scan_to_and_id_part() {
    let (part, end) = scan_to("Tools.Host", 0, '.');
    assert_eq!(part, "Tools");
    assert_eq!(end, 6);
    // a delimiter at the start scans to the end instead
    let (part, end) = scan_to(".Host", 0, '.');
    assert_eq!(part, ".Host");
    assert_eq!(end, 5);
    let (part, _) = scan_id_part("Host.Target", 0);
    assert_eq!(part, "Host");
}

#[test]
fn test_basename_from_url() {
    assert_eq!(basename_from_url("https://example.invalid/a/b/file.vsix"), "file.vsix");
    assert_eq!(basename_from_url("file.vsix"), "file.vsix");
}

#[test]
fn test_split_dotted() {
    assert_eq!(split_dotted("a.b.c"), vec!["a", "b", "c"]);
    assert_eq!(split_dotted(""), vec![""]);
    assert_eq!(split_dotted("a."), vec!["a", ""]);
}

#[test]
fn test_percent_decode() {
    assert_eq!(alloc_url_percent_decoded("a%20b"), "a b");
    assert_eq!(alloc_url_percent_decoded("plain"), "plain");
    assert_eq!(alloc_url_percent_decoded("%2F%2f"), "//");
    // an incomplete escape is kept as written
    assert_eq!(alloc_url_percent_decoded("100%"), "100%");
}
