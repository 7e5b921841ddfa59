use nexus_supervisor::control::{control_action, ControlAction, ControlEvent};

#[test]
fn show_and_reload_touch_only_the_window() {
    assert_eq!(control_action(ControlEvent::MenuShow), ControlAction::ShowWindow);
    assert_eq!(control_action(ControlEvent::MenuReload), ControlAction::ReloadWindow);
}

#[test]
fn closing_the_window_hides_it_and_terminates_nothing() {
    assert_eq!(control_action(ControlEvent::WindowCloseRequested), ControlAction::HideWindow);
}

#[test]
fn quitting_terminates_the_supervised_processes() {
    assert_eq!(control_action(ControlEvent::MenuQuit), ControlAction::TerminateAndExit);
    assert_eq!(control_action(ControlEvent::AppShutdown), ControlAction::TerminateAndExit);
}
