//! Key bindings of the dashboard.
use vstd::prelude::*;

verus! {

/// What the dashboard does in answer to a key.
#[derive(Debug, Clone, Copy, PartialEq, Eq, Structural)]
pub enum Action {
    Quit,
    Restart,
    ToggleFilter,
    ClearFilter,
    ScrollUp,
    ScrollDown,
    PrevService,
    NextService,
    NoOp,
}

/// The keys the dashboard tells apart.
#[derive(Debug, Clone, Copy, PartialEq, Eq, Structural)]
pub enum Key {
    Char(char),
    Enter,
    Esc,
    Up,
    Down,
    PageUp,
    PageDown,
    Tab,
    BackTab,
    Other,
}

/// A key event: the key, whether Shift and Control were held, and whether
/// it is a press (rather than a repeat or a release).
#[derive(Debug, Clone, Copy, PartialEq, Eq, Structural)]
pub struct KeyInput {
    pub key: Key,
    pub shift: bool,
    pub control: bool,
    pub press: bool,
}

/// The action bound to a key event: `q` or Ctrl+C quit, `r` restarts,
/// `f` or Enter toggles the log filter, Esc clears it, the arrow keys
/// (with or without Shift) and PageUp/PageDown scroll the log, and
/// Tab/BackTab move the service selection. Anything but a press does nothing.
pub open spec fn action_for(k: KeyInput) -> Action {
    if !k.press {
        Action::NoOp
    } else {
        match k.key {
            Key::Char(c) => if c == 'q' {
                Action::Quit
            } else if c == 'c' && k.control {
                Action::Quit
            } else if c == 'r' {
                Action::Restart
            } else if c == 'f' {
                Action::ToggleFilter
            } else {
                Action::NoOp
            },
            Key::Enter => Action::ToggleFilter,
            Key::Esc => Action::ClearFilter,
            Key::Up => Action::ScrollUp,
            Key::Down => Action::ScrollDown,
            Key::PageUp => Action::ScrollUp,
            Key::PageDown => Action::ScrollDown,
            Key::Tab => Action::NextService,
            Key::BackTab => Action::PrevService,
            Key::Other => Action::NoOp,
        }
    }
}

/// On a key press: the arrow keys and PageUp/PageDown scroll the log
/// (Up/PageUp back, Down/PageDown forward), Tab and Shift+Tab move the
/// service selection, `q` and Ctrl+C quit, `r` restarts, `f` and Enter
/// toggle the filter, and Esc clears it. Nothing but a press acts.
pub proof fn lemma_key_bindings(k: KeyInput)
    ensures
        !k.press ==> action_for(k) == Action::NoOp,
        k.press && (k.key == Key::Up || k.key == Key::PageUp) ==> action_for(k) == Action::ScrollUp,
        k.press && (k.key == Key::Down || k.key == Key::PageDown) ==> action_for(k)
            == Action::ScrollDown,
        k.press && k.key == Key::Tab ==> action_for(k) == Action::NextService,
        k.press && k.key == Key::BackTab ==> action_for(k) == Action::PrevService,
        k.press && k.key == Key::Char('q') ==> action_for(k) == Action::Quit,
        k.press && k.control && k.key == Key::Char('c') ==> action_for(k) == Action::Quit,
        k.press && k.key == Key::Char('r') ==> action_for(k) == Action::Restart,
        k.press && (k.key == Key::Char('f') || k.key == Key::Enter) ==> action_for(k)
            == Action::ToggleFilter,
        k.press && k.key == Key::Esc ==> action_for(k) == Action::ClearFilter,
        k.press && k.key == Key::Other ==> action_for(k) == Action::NoOp,
{
}

/// The action bound to a key event.
pub fn handle_key(k: KeyInput) -> (a: Action)
    ensures
        a == action_for(k),
{
    if !k.press {
        return Action::NoOp;
    }
    match k.key {
        Key::Char(c) => {
            if c == 'q' {
                Action::Quit
            } else if c == 'c' && k.control {
                Action::Quit
            } else if c == 'r' {
                Action::Restart
            } else if c == 'f' {
                Action::ToggleFilter
            } else {
                Action::NoOp
            }
        },
        Key::Enter => Action::ToggleFilter,
        Key::Esc => Action::ClearFilter,
        Key::Up => Action::ScrollUp,
        Key::Down => Action::ScrollDown,
        Key::PageUp => Action::ScrollUp,
        Key::PageDown => Action::ScrollDown,
        Key::Tab => Action::NextService,
        Key::BackTab => Action::PrevService,
        Key::Other => Action::NoOp,
    }
}

} // verus!
