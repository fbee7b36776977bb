//! The command line of the `printcher` executable.
use vstd::prelude::*;
use crate::text::same_text;

verus! {

/// What the executable was asked to do.
#[derive(Debug, Clone, Copy, PartialEq, Eq, Structural)]
pub enum Command {
    /// `--install-autostart`: start the daemon on login.
    InstallAutostart,
    /// `--uninstall-autostart`.
    UninstallAutostart,
    /// `--install-launcher`: add the icon to the applications menu.
    InstallLauncher,
    /// `--uninstall-launcher`.
    UninstallLauncher,
    /// `--uninstall-all`: autostart, launcher and saved settings.
    UninstallAll,
    /// `--daemon`: become the daemon without doing anything else.
    Daemon,
    /// `--quit`: ask the running daemon to quit.
    Quit,
    /// `--configure-shortcut`: open the system's shortcut settings.
    ConfigureShortcut,
    /// `--settings`: open the settings, starting the daemon if needed.
    Settings,
    /// Anything else: capture now, starting the daemon if needed.
    Capture,
}

/// The command for the first argument of the command line.
pub open spec fn spec_command(arg: Option<Seq<char>>) -> Command {
    match arg {
        Some(a) => if a == "--install-autostart"@ {
            Command::InstallAutostart
        } else if a == "--uninstall-autostart"@ {
            Command::UninstallAutostart
        } else if a == "--install-launcher"@ {
            Command::InstallLauncher
        } else if a == "--uninstall-launcher"@ {
            Command::UninstallLauncher
        } else if a == "--uninstall-all"@ {
            Command::UninstallAll
        } else if a == "--daemon"@ {
            Command::Daemon
        } else if a == "--quit"@ {
            Command::Quit
        } else if a == "--configure-shortcut"@ {
            Command::ConfigureShortcut
        } else if a == "--settings"@ {
            Command::Settings
        } else {
            Command::Capture
        },
        None => Command::Capture,
    }
}

/// The command for the first argument of the command line, if any.
pub fn command_from_arg(arg: Option<&str>) -> (c: Command)
    ensures
        c == spec_command(
            match arg {
                Some(a) => Some(a@),
                None => None,
            },
        ),
{
    match arg {
        None => Command::Capture,
        Some(a) => {
            if same_text(a, "--install-autostart") {
                Command::InstallAutostart
            } else if same_text(a, "--uninstall-autostart") {
                Command::UninstallAutostart
            } else if same_text(a, "--install-launcher") {
                Command::InstallLauncher
            } else if same_text(a, "--uninstall-launcher") {
                Command::UninstallLauncher
            } else if same_text(a, "--uninstall-all") {
                Command::UninstallAll
            } else if same_text(a, "--daemon") {
                Command::Daemon
            } else if same_text(a, "--quit") {
                Command::Quit
            } else if same_text(a, "--configure-shortcut") {
                Command::ConfigureShortcut
            } else if same_text(a, "--settings") {
                Command::Settings
            } else {
                Command::Capture
            }
        },
    }
}

} // verus!
