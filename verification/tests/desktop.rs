use printcher::desktop::{applications_dir_in, autostart_entry, fonts_dir_in, launcher_entry};
use printcher::paths::autostart_dir_in;

#[test]
fn install_writes_a_valid_hidden_desktop_entry() {
    let contents = autostart_entry("/usr/bin/printcher");
    assert!(contents.contains("[Desktop Entry]"));
    assert!(contents.contains("Exec="));
    assert!(contents.contains("--daemon"));
    assert!(contents.contains("NoDisplay=true"));
}

#[test]
fn autostart_entry_runs_the_executable_as_a_daemon() {
    assert_eq!(
        autostart_entry("/opt/p"),
        "[Desktop Entry]\nType=Application\nName=printcher\nComment=Captura de tela em segundo plano\nExec=/opt/p --daemon\nX-GNOME-Autostart-enabled=true\nNoDisplay=true\n"
    );
}

#[test]
fn launcher_entry_opens_the_settings() {
    let contents = launcher_entry("/opt/p");
    assert!(contents.contains("Exec=/opt/p --settings\n"));
    assert!(contents.contains("Comment=Captura de tela e anotação\n"));
    assert!(contents.ends_with("Categories=Graphics;\n"));
    assert!(!contents.contains("NoDisplay"));
}

#[test]
fn entry_directories() {
    assert_eq!(autostart_dir_in(Some("/home/ana/.config".to_string())).as_deref(), Some("/home/ana/.config/autostart"));
    assert_eq!(autostart_dir_in(None), None);
    assert_eq!(
        applications_dir_in(Some("/home/ana/.local/share".to_string())).as_deref(),
        Some("/home/ana/.local/share/applications")
    );
    assert_eq!(fonts_dir_in(Some("/data/".to_string())).as_deref(), Some("/data/fonts"));
    assert_eq!(fonts_dir_in(None), None);
}
