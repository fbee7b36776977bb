use printcher::cli::Command;
use printcher::daemon::{
    close_choice, event_for, launch_of, method_name, notification_step, request_for, service_event, shortcut_event,
    stops_loop, CloseChoice, DaemonEvent, InitialAction, Launch, NotificationStep, RemoteMethod,
};

#[test]
fn each_command_is_carried_out_its_own_way() {
    assert_eq!(launch_of(Command::Capture), Launch::Daemon(Some(InitialAction::Capture)));
    assert_eq!(launch_of(Command::Daemon), Launch::Daemon(None));
    assert_eq!(launch_of(Command::Settings), Launch::Daemon(Some(InitialAction::OpenSettings)));
    assert_eq!(launch_of(Command::Quit), Launch::Remote(RemoteMethod::Quit));
    assert_eq!(launch_of(Command::ConfigureShortcut), Launch::Remote(RemoteMethod::ConfigureShortcut));
    assert_eq!(launch_of(Command::InstallAutostart), Launch::Local);
    assert_eq!(launch_of(Command::UninstallAll), Launch::Local);
}

#[test]
fn a_launch_does_the_same_whether_or_not_a_daemon_runs() {
    for a in [InitialAction::Capture, InitialAction::OpenSettings] {
        assert_eq!(service_event(request_for(a)), Some(event_for(a)));
        assert!(!stops_loop(event_for(a)));
    }
    assert_eq!(event_for(InitialAction::OpenSettings), DaemonEvent::OpenSettings);
}

#[test]
fn methods_have_their_bus_names() {
    assert_eq!(method_name(RemoteMethod::Capture), "Capture");
    assert_eq!(method_name(RemoteMethod::OpenSettings), "OpenSettings");
    assert_eq!(method_name(RemoteMethod::Quit), "Quit");
    assert_eq!(method_name(RemoteMethod::ConfigureShortcut), "ConfigureShortcut");
    assert_eq!(service_event(RemoteMethod::ConfigureShortcut), None);
    assert_eq!(service_event(RemoteMethod::Quit), Some(DaemonEvent::Quit));
    assert!(stops_loop(DaemonEvent::Quit));
}

#[test]
fn only_printchers_own_shortcut_captures() {
    assert_eq!(shortcut_event("capture"), Some(DaemonEvent::Capture));
    assert_eq!(shortcut_event("Capture"), None);
    assert_eq!(shortcut_event(""), None);
}

#[test]
fn the_notification_listener_waits_for_its_own_notification() {
    assert_eq!(notification_step("editor-save-1", "editor-save-2", "open-folder"), NotificationStep::KeepListening);
    assert_eq!(notification_step("editor-save-1", "editor-save-1", "open-folder"), NotificationStep::OpenFolderAndStop);
    assert_eq!(notification_step("editor-save-1", "editor-save-1", "dismiss"), NotificationStep::Stop);
}

#[test]
fn closing_the_settings_asks_what_to_do() {
    assert_eq!(close_choice(Some(0)), CloseChoice::Cancel);
    assert_eq!(close_choice(Some(1)), CloseChoice::Background);
    assert_eq!(close_choice(Some(2)), CloseChoice::Quit);
    assert_eq!(close_choice(Some(7)), CloseChoice::Cancel);
    assert_eq!(close_choice(None), CloseChoice::Cancel);
}
