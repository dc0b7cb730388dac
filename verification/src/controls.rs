//! What the window and the tray menu do on the user's commands.

use vstd::prelude::*;

verus! {

#[derive(Clone, Copy, Debug, PartialEq, Eq, Structural)]
pub enum WindowAction {
    Hide,
    ShowAndFocus,
}

/// What toggling does to a window that reports itself visible or not (`None` where it cannot
/// tell): a visible window, or one of unknown state, is hidden; a hidden one is shown.
pub open spec fn toggled(visible: Option<bool>) -> WindowAction {
    if visible == Some(false) {
        WindowAction::ShowAndFocus
    } else {
        WindowAction::Hide
    }
}

/// Whether the window is visible after an action.
pub open spec fn visible_after(a: WindowAction) -> bool {
    a == WindowAction::ShowAndFocus
}

/// What the boss key, or the tray's toggle entry, does to the floating window.
pub fn toggle_action(visible: Option<bool>) -> (a: WindowAction)
    ensures
        a == toggled(visible),
{
    match visible {
        Some(false) => WindowAction::ShowAndFocus,
        _ => WindowAction::Hide,
    }
}

#[derive(Clone, Copy, Debug, PartialEq, Eq, Structural)]
pub enum TrayAction {
    /// Show or hide the floating window.
    ToggleWindow,
    /// Ask the front end to refresh its quotes.
    Refresh,
    /// Quit the whole application.
    Quit,
}

fn same_text(a: &str, b: &str) -> (r: bool)
    ensures
        r == (a@ == b@),
{
    String::from_str(a) == String::from_str(b)
}

/// The action of the tray menu entry `id`; `None` for an entry that is not the menu's.
pub fn tray_action(id: &str) -> (a: Option<TrayAction>)
    ensures
        id@ == "toggle"@ ==> a == Some(TrayAction::ToggleWindow),
        id@ == "refresh"@ ==> a == Some(TrayAction::Refresh),
        id@ == "quit"@ ==> a == Some(TrayAction::Quit),
        id@ != "toggle"@ && id@ != "refresh"@ && id@ != "quit"@ ==> a is None,
{
    proof {
        reveal_strlit("toggle");
        reveal_strlit("refresh");
        reveal_strlit("quit");
        assert("toggle"@.len() == 6);
        assert("refresh"@.len() == 7);
        assert("quit"@.len() == 4);
    }
    if same_text(id, "toggle") {
        Some(TrayAction::ToggleWindow)
    } else if same_text(id, "refresh") {
        Some(TrayAction::Refresh)
    } else if same_text(id, "quit") {
        Some(TrayAction::Quit)
    } else {
        None
    }
}

/// The boss key flips the window: pressed twice, it leaves the window as it was.
pub proof fn law_toggle_twice(visible: bool)
    ensures
        visible_after(toggled(Some(visible))) == !visible,
        visible_after(toggled(Some(visible_after(toggled(Some(visible)))))) == visible,
{
}

} // verus!
