//! The tray menu: its entries and which action a click on each one asks for.
use vstd::prelude::*;

verus! {

/// What a tray menu entry asks for.
#[derive(Clone, Copy, PartialEq, Eq, Structural, Debug)]
pub enum TrayAction {
    /// Pin the clipboard image as a new pin.
    NewPin,
    /// Show or hide the control panel.
    ShowHide,
    /// Unpin every image.
    CloseAll,
    /// Quit the application.
    Quit,
}

/// The menu id of the entry for each action.
pub open spec fn tray_id_of(a: TrayAction) -> Seq<char> {
    match a {
        TrayAction::NewPin => "new_pin"@,
        TrayAction::ShowHide => "show_hide"@,
        TrayAction::CloseAll => "close_all"@,
        TrayAction::Quit => "quit"@,
    }
}

impl TrayAction {
    /// The menu id of this action's entry.
    pub fn id(self) -> (s: &'static str)
        ensures
            s@ == tray_id_of(self),
    {
        match self {
            TrayAction::NewPin => "new_pin",
            TrayAction::ShowHide => "show_hide",
            TrayAction::CloseAll => "close_all",
            TrayAction::Quit => "quit",
        }
    }
}

/// The action of the menu entry with the given id; `None` for any other id,
/// which the menu ignores.
pub fn tray_action(id: &str) -> (r: Option<TrayAction>)
    ensures
        match r {
            Some(a) => tray_id_of(a) == id@,
            None => forall|a: TrayAction| tray_id_of(a) != id@,
        },
{
    let id = String::from_str(id);
    if id == String::from_str(TrayAction::NewPin.id()) {
        Some(TrayAction::NewPin)
    } else if id == String::from_str(TrayAction::ShowHide.id()) {
        Some(TrayAction::ShowHide)
    } else if id == String::from_str(TrayAction::CloseAll.id()) {
        Some(TrayAction::CloseAll)
    } else if id == String::from_str(TrayAction::Quit.id()) {
        Some(TrayAction::Quit)
    } else {
        assert forall|a: TrayAction| tray_id_of(a) != id@ by {
            match a {
                TrayAction::NewPin => {},
                TrayAction::ShowHide => {},
                TrayAction::CloseAll => {},
                TrayAction::Quit => {},
            }
        }
        None
    }
}

} // verus!
