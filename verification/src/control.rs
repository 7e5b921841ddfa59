//! The control surface boundary.
//!
//! The tray menu, the window and the host application's lifecycle deliver
//! events; this module decides, for each, the one action the shell performs.
//! The decision that matters is the last one a session makes: quitting — by
//! menu or by host shutdown — terminates every supervised process, while
//! closing the window only hides it and must never terminate anything.

use vstd::prelude::*;

verus! {

/// An event delivered by the tray, the window, or the host application.
#[derive(Clone, Copy, PartialEq, Eq, Structural, Debug)]
pub enum ControlEvent {
    /// The tray menu's show entry, or a left click on the tray icon.
    MenuShow,
    /// The tray menu's reload entry.
    MenuReload,
    /// The tray menu's quit entry.
    MenuQuit,
    /// The user asked to close the main window.
    WindowCloseRequested,
    /// The host application is shutting down.
    AppShutdown,
}

/// The one action the shell performs for an event.
#[derive(Clone, Copy, PartialEq, Eq, Structural, Debug)]
pub enum ControlAction {
    /// Show and focus the main window.
    ShowWindow,
    /// Reload the main window's content.
    ReloadWindow,
    /// Hide the main window; the supervised processes keep running.
    HideWindow,
    /// Drain the process registry, signal every registered process once,
    /// and exit the host application.
    TerminateAndExit,
}

/// The event-to-action decision of the control surface.
pub open spec fn spec_control_action(e: ControlEvent) -> ControlAction {
    match e {
        ControlEvent::MenuShow => ControlAction::ShowWindow,
        ControlEvent::MenuReload => ControlAction::ReloadWindow,
        ControlEvent::MenuQuit => ControlAction::TerminateAndExit,
        ControlEvent::WindowCloseRequested => ControlAction::HideWindow,
        ControlEvent::AppShutdown => ControlAction::TerminateAndExit,
    }
}

/// Decide the shell's action for one control event. Only quitting — by menu
/// or by host shutdown — ever terminates the supervised processes; in
/// particular a window close request merely hides the window.
pub fn control_action(e: ControlEvent) -> (r: ControlAction)
    ensures
        r == spec_control_action(e),
        (r == ControlAction::TerminateAndExit) <==> (e == ControlEvent::MenuQuit || e
            == ControlEvent::AppShutdown),
        e == ControlEvent::WindowCloseRequested ==> r == ControlAction::HideWindow,
{
    match e {
        ControlEvent::MenuShow => ControlAction::ShowWindow,
        ControlEvent::MenuReload => ControlAction::ReloadWindow,
        ControlEvent::MenuQuit => ControlAction::TerminateAndExit,
        ControlEvent::WindowCloseRequested => ControlAction::HideWindow,
        ControlEvent::AppShutdown => ControlAction::TerminateAndExit,
    }
}

} // verus!
