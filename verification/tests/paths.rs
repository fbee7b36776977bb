use printcher::paths::join_path;
use printcher::text::{chars_of, string_from_chars};

#[test]
fn join_puts_one_separator_between() {
    assert_eq!(join_path("/home/ana", "printcher"), "/home/ana/printcher");
    assert_eq!(join_path("/home/ana/", "printcher"), "/home/ana/printcher");
    assert_eq!(join_path("", "printcher"), "printcher");
    assert_eq!(join_path("/home/ana", "/etc"), "/etc");
}

#[test]
fn characters_round_trip() {
    let s = "ação ✓";
    assert_eq!(string_from_chars(&chars_of(s)), s);
}
