use printcher::cli::{command_from_arg, Command};

#[test]
fn command_line_arguments() {
    assert_eq!(command_from_arg(None), Command::Capture);
    assert_eq!(command_from_arg(Some("--daemon")), Command::Daemon);
    assert_eq!(command_from_arg(Some("--settings")), Command::Settings);
    assert_eq!(command_from_arg(Some("--quit")), Command::Quit);
    assert_eq!(command_from_arg(Some("--configure-shortcut")), Command::ConfigureShortcut);
    assert_eq!(command_from_arg(Some("--install-autostart")), Command::InstallAutostart);
    assert_eq!(command_from_arg(Some("--uninstall-autostart")), Command::UninstallAutostart);
    assert_eq!(command_from_arg(Some("--install-launcher")), Command::InstallLauncher);
    assert_eq!(command_from_arg(Some("--uninstall-launcher")), Command::UninstallLauncher);
    assert_eq!(command_from_arg(Some("--uninstall-all")), Command::UninstallAll);
    assert_eq!(command_from_arg(Some("--help")), Command::Capture);
}
