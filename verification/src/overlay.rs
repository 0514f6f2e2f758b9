//! What the overlay shows: its menu, its closed form with the indicators, or
//! nothing. The keys of the user move it from one to the other.

use vstd::prelude::*;

verus! {

/// What the overlay shows.
#[derive(Clone, Copy, Debug, PartialEq, Eq, Structural)]
pub enum UiState {
    /// The menu with its widgets.
    MenuOpen,
    /// The indicators only.
    Closed,
    /// Nothing.
    Hidden,
}

impl UiState {
    /// The state after one frame in which the key that shows the overlay
    /// was pressed or not (`display`), the key that hides it was pressed or
    /// not (`hide`), and the keys went to a text field or not (`typing`).
    ///
    /// Keys that go to a text field change nothing, and neither does a frame
    /// without either key. Else a hidden overlay comes back closed; the key
    /// that hides hides it; and the key that shows opens the menu of a closed
    /// overlay and closes an open one.
    pub open spec fn spec_next(self, display: bool, hide: bool, typing: bool) -> UiState {
        if typing || !(display || hide) {
            self
        } else if self == UiState::Hidden {
            UiState::Closed
        } else if hide {
            UiState::Hidden
        } else if self == UiState::MenuOpen {
            UiState::Closed
        } else {
            UiState::MenuOpen
        }
    }

    /// The state after one frame.
    pub fn next(self, display: bool, hide: bool, typing: bool) -> (next: UiState)
        ensures
            next == self.spec_next(display, hide, typing),
    {
        if !typing && (display || hide) {
            match (self, hide) {
                (UiState::Hidden, _) => UiState::Closed,
                (_, true) => UiState::Hidden,
                (UiState::MenuOpen, _) => UiState::Closed,
                (UiState::Closed, _) => UiState::MenuOpen,
            }
        } else {
            self
        }
    }
}

} // verus!
