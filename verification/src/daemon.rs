//! The single-instance daemon protocol: what each command asks of it, what
//! it is asked over D-Bus, and the decisions of the loops it runs (global
//! shortcut, notifications, closing the settings window). The D-Bus
//! service, the portals and the windows themselves are not here.
use vstd::prelude::*;
use crate::cli::{spec_command, Command};
use crate::text::same_text;

verus! {

/// What a launch does once the daemon is there: the two actions that
/// "start the daemon if needed, then do X" handles alike.
#[derive(Debug, Clone, Copy, PartialEq, Eq, Structural)]
pub enum InitialAction {
    Capture,
    OpenSettings,
}

/// An event of the daemon's main loop.
#[derive(Debug, Clone, Copy, PartialEq, Eq, Structural)]
pub enum DaemonEvent {
    Capture,
    OpenSettings,
    Quit,
}

/// A method of the daemon's D-Bus interface.
#[derive(Debug, Clone, Copy, PartialEq, Eq, Structural)]
pub enum RemoteMethod {
    Capture,
    OpenSettings,
    Quit,
    ConfigureShortcut,
}

/// How a command of the command line is carried out.
#[derive(Debug, Clone, Copy, PartialEq, Eq, Structural)]
pub enum Launch {
    /// Become the daemon unless one is running, then do the action, if
    /// any; when one is running, ask it to do the action instead.
    Daemon(Option<InitialAction>),
    /// Call a method of the running daemon; nothing when none runs.
    Remote(RemoteMethod),
    /// Work done by this process alone (installing, uninstalling).
    Local,
}

/// The way each command is carried out: no argument captures, `--daemon`
/// only starts, `--settings` opens the settings, `--quit` and
/// `--configure-shortcut` go to the running daemon.
pub open spec fn spec_launch(c: Command) -> Launch {
    match c {
        Command::Capture => Launch::Daemon(Some(InitialAction::Capture)),
        Command::Daemon => Launch::Daemon(None),
        Command::Settings => Launch::Daemon(Some(InitialAction::OpenSettings)),
        Command::Quit => Launch::Remote(RemoteMethod::Quit),
        Command::ConfigureShortcut => Launch::Remote(RemoteMethod::ConfigureShortcut),
        _ => Launch::Local,
    }
}

pub fn launch_of(c: Command) -> (l: Launch)
    ensures
        l == spec_launch(c),
{
    match c {
        Command::Capture => Launch::Daemon(Some(InitialAction::Capture)),
        Command::Daemon => Launch::Daemon(None),
        Command::Settings => Launch::Daemon(Some(InitialAction::OpenSettings)),
        Command::Quit => Launch::Remote(RemoteMethod::Quit),
        Command::ConfigureShortcut => Launch::Remote(RemoteMethod::ConfigureShortcut),
        _ => Launch::Local,
    }
}

/// Which commands reach the daemon: the installing and uninstalling ones
/// (autostart, launcher, everything) are carried out by this process alone;
/// `--quit` and `--configure-shortcut` only ask a running daemon; the
/// others start the daemon if needed, with no action only for `--daemon`,
/// opening the settings for `--settings`, and capturing otherwise (no
/// argument, or one it does not know).
pub proof fn lemma_launch_by_command(c: Command)
    ensures
        (spec_launch(c) is Local) <==> (c == Command::InstallAutostart || c == Command::UninstallAutostart
            || c == Command::InstallLauncher || c == Command::UninstallLauncher || c == Command::UninstallAll),
        (spec_launch(c) is Remote) <==> (c == Command::Quit || c == Command::ConfigureShortcut),
        (spec_launch(c) == Launch::Daemon(None)) <==> c == Command::Daemon,
        (spec_launch(c) == Launch::Daemon(Some(InitialAction::OpenSettings))) <==> c == Command::Settings,
        (spec_launch(c) == Launch::Daemon(Some(InitialAction::Capture))) <==> c == Command::Capture,
        spec_launch(c) matches Launch::Remote(m) ==> spec_service_event(m) != Some(DaemonEvent::Capture),
{
}

/// On the command line, exactly the arguments `--install-autostart`,
/// `--uninstall-autostart`, `--install-launcher`, `--uninstall-launcher`
/// and `--uninstall-all` are carried out by this process alone, and running
/// printcher with no argument captures.
pub proof fn lemma_local_arguments(a: Seq<char>)
    ensures
        (spec_launch(spec_command(Some(a))) is Local) <==> (a == "--install-autostart"@ || a
            == "--uninstall-autostart"@ || a == "--install-launcher"@ || a == "--uninstall-launcher"@ || a
            == "--uninstall-all"@),
        spec_launch(spec_command(None)) == Launch::Daemon(Some(InitialAction::Capture)),
{
    reveal_strlit("--install-autostart");
    reveal_strlit("--uninstall-autostart");
    reveal_strlit("--install-launcher");
    reveal_strlit("--uninstall-launcher");
    reveal_strlit("--uninstall-all");
    reveal_strlit("--daemon");
    reveal_strlit("--quit");
    reveal_strlit("--configure-shortcut");
    reveal_strlit("--settings");
}

/// The method asked of the running daemon when another instance owns the
/// bus name.
pub open spec fn spec_request_for(a: InitialAction) -> RemoteMethod {
    match a {
        InitialAction::Capture => RemoteMethod::Capture,
        InitialAction::OpenSettings => RemoteMethod::OpenSettings,
    }
}

pub fn request_for(a: InitialAction) -> (m: RemoteMethod)
    ensures
        m == spec_request_for(a),
{
    match a {
        InitialAction::Capture => RemoteMethod::Capture,
        InitialAction::OpenSettings => RemoteMethod::OpenSettings,
    }
}

/// The event this process sends itself when it becomes the daemon.
pub open spec fn spec_event_for(a: InitialAction) -> DaemonEvent {
    match a {
        InitialAction::Capture => DaemonEvent::Capture,
        InitialAction::OpenSettings => DaemonEvent::OpenSettings,
    }
}

pub fn event_for(a: InitialAction) -> (e: DaemonEvent)
    ensures
        e == spec_event_for(a),
{
    match a {
        InitialAction::Capture => DaemonEvent::Capture,
        InitialAction::OpenSettings => DaemonEvent::OpenSettings,
    }
}

/// What the D-Bus service does with a call: an event for the main loop,
/// or, for `ConfigureShortcut` (`None`), a request to the global shortcut
/// task.
pub open spec fn spec_service_event(m: RemoteMethod) -> Option<DaemonEvent> {
    match m {
        RemoteMethod::Capture => Some(DaemonEvent::Capture),
        RemoteMethod::OpenSettings => Some(DaemonEvent::OpenSettings),
        RemoteMethod::Quit => Some(DaemonEvent::Quit),
        RemoteMethod::ConfigureShortcut => None,
    }
}

pub fn service_event(m: RemoteMethod) -> (e: Option<DaemonEvent>)
    ensures
        e == spec_service_event(m),
{
    match m {
        RemoteMethod::Capture => Some(DaemonEvent::Capture),
        RemoteMethod::OpenSettings => Some(DaemonEvent::OpenSettings),
        RemoteMethod::Quit => Some(DaemonEvent::Quit),
        RemoteMethod::ConfigureShortcut => None,
    }
}

/// The name of a method on the bus.
pub open spec fn spec_method_name(m: RemoteMethod) -> Seq<char> {
    match m {
        RemoteMethod::Capture => "Capture"@,
        RemoteMethod::OpenSettings => "OpenSettings"@,
        RemoteMethod::Quit => "Quit"@,
        RemoteMethod::ConfigureShortcut => "ConfigureShortcut"@,
    }
}

pub fn method_name(m: RemoteMethod) -> (name: &'static str)
    ensures
        name@ == spec_method_name(m),
{
    match m {
        RemoteMethod::Capture => "Capture",
        RemoteMethod::OpenSettings => "OpenSettings",
        RemoteMethod::Quit => "Quit",
        RemoteMethod::ConfigureShortcut => "ConfigureShortcut",
    }
}

/// Whether the main loop ends after an event.
pub open spec fn spec_stops_loop(e: DaemonEvent) -> bool {
    e == DaemonEvent::Quit
}

pub fn stops_loop(e: DaemonEvent) -> (b: bool)
    ensures
        b == spec_stops_loop(e),
{
    e == DaemonEvent::Quit
}

/// A launch does the same whether it becomes the daemon or finds one
/// running: the method it asks of the running daemon makes that daemon's
/// service send its loop the very event that a new daemon sends itself,
/// and that event does not end the loop.
pub proof fn lemma_same_action_either_way(a: InitialAction)
    ensures
        spec_service_event(spec_request_for(a)) == Some(spec_event_for(a)),
        !spec_stops_loop(spec_event_for(a)),
{
}

/// The identifier of the capture shortcut given to the GlobalShortcuts
/// portal.
pub const SHORTCUT_ID: &'static str = "capture";

/// The description of the capture shortcut shown by the system.
pub const SHORTCUT_DESCRIPTION: &'static str = "Capturar tela";

/// What an activation of a global shortcut does: a capture for printcher's
/// own shortcut, nothing for any other.
pub fn shortcut_event(id: &str) -> (e: Option<DaemonEvent>)
    ensures
        e == (if id@ == SHORTCUT_ID@ { Some(DaemonEvent::Capture) } else { None }),
{
    if same_text(id, SHORTCUT_ID) {
        Some(DaemonEvent::Capture)
    } else {
        None
    }
}

/// The name of the "open folder" button's action on the notification of a
/// saved capture.
pub const OPEN_FOLDER_ACTION: &'static str = "open-folder";

/// What the listener of a saved capture's notification does with an
/// action invoked on some notification.
#[derive(Debug, Clone, Copy, PartialEq, Eq, Structural)]
pub enum NotificationStep {
    /// The action belongs to another notification: keep listening.
    KeepListening,
    /// Open the capture's folder, then stop listening.
    OpenFolderAndStop,
    /// Another action of this notification: stop listening.
    Stop,
}

/// The listener waits for the next action of its own notification only.
pub open spec fn spec_notification_step(own_id: Seq<char>, id: Seq<char>, name: Seq<char>) -> NotificationStep {
    if id != own_id {
        NotificationStep::KeepListening
    } else if name == OPEN_FOLDER_ACTION@ {
        NotificationStep::OpenFolderAndStop
    } else {
        NotificationStep::Stop
    }
}

pub fn notification_step(own_id: &str, id: &str, name: &str) -> (s: NotificationStep)
    ensures
        s == spec_notification_step(own_id@, id@, name@),
{
    if !same_text(id, own_id) {
        NotificationStep::KeepListening
    } else if same_text(name, OPEN_FOLDER_ACTION) {
        NotificationStep::OpenFolderAndStop
    } else {
        NotificationStep::Stop
    }
}

/// The answer to "close the settings window?".
#[derive(Debug, Clone, Copy, PartialEq, Eq, Structural)]
pub enum CloseChoice {
    /// Keep the window open.
    Cancel,
    /// Close the window and keep the daemon running.
    Background,
    /// Close the window and quit the daemon.
    Quit,
}

/// The buttons of the dialog are, in order, Cancel, Keep in background and
/// Quit completely; a dismissed dialog (no button, or any other answer)
/// keeps the window.
pub open spec fn spec_close_choice(button: Option<i32>) -> CloseChoice {
    match button {
        Some(1) => CloseChoice::Background,
        Some(2) => CloseChoice::Quit,
        _ => CloseChoice::Cancel,
    }
}

pub fn close_choice(button: Option<i32>) -> (c: CloseChoice)
    ensures
        c == spec_close_choice(button),
{
    match button {
        Some(1) => CloseChoice::Background,
        Some(2) => CloseChoice::Quit,
        _ => CloseChoice::Cancel,
    }
}

} // verus!
