use printcher::shortcut::{format_path_array, keybindings_after_install, keybindings_after_uninstall, parse_path_array, quote, PATH};

#[test]
fn parses_an_empty_array_with_its_type() {
    assert!(parse_path_array("@as []").is_empty());
    assert!(parse_path_array("  []  ").is_empty());
}

#[test]
fn parses_the_paths_of_an_array() {
    assert_eq!(parse_path_array("['/a/', '/b/']\n"), vec!["/a/".to_string(), "/b/".to_string()]);
}

#[test]
fn formats_an_array_of_paths() {
    assert_eq!(format_path_array(&["/a/".to_string(), "/b/".to_string()]), "['/a/', '/b/']");
    assert_eq!(format_path_array(&[]), "[]");
}

#[test]
fn quotes_and_escapes_single_quotes() {
    assert_eq!(quote("printcher"), "'printcher'");
    assert_eq!(quote("it's"), "'it\\'s'");
}

#[test]
fn paths_read_back_as_written() {
    let paths = vec!["/x/".to_string(), "".to_string(), "/custom keybinding/".to_string()];
    assert_eq!(parse_path_array(&format_path_array(&paths)), paths);
}

#[test]
fn install_adds_printcher_at_the_end_once() {
    let after = keybindings_after_install("['/a/']").unwrap();
    assert_eq!(after, format!("['/a/', '{PATH}']"));
    assert_eq!(keybindings_after_install(&after), None);
}

#[test]
fn install_into_an_empty_list() {
    assert_eq!(keybindings_after_install("@as []"), Some(format!("['{PATH}']")));
}

#[test]
fn uninstall_removes_only_printcher() {
    let current = format!("['/a/', '{PATH}', '/b/']");
    assert_eq!(keybindings_after_uninstall(&current), Some("['/a/', '/b/']".to_string()));
    assert_eq!(keybindings_after_uninstall("['/a/']"), None);
}

#[test]
fn install_then_uninstall_restores_the_list() {
    let before = "['/a/', '/b/']";
    let installed = keybindings_after_install(before).unwrap();
    let restored = keybindings_after_uninstall(&installed).unwrap();
    assert_eq!(parse_path_array(&restored), parse_path_array(before));
}
