//! Key-to-action mapping for prompt input.

use vstd::prelude::*;

verus! {

/// Key event for line-based input.
#[derive(Debug, Clone, Copy, PartialEq, Eq, Structural)]
pub struct Key {
    pub name: KeyName,
    pub ctrl: bool,
    pub meta: bool,
}

#[derive(Debug, Clone, Copy, PartialEq, Eq, Structural)]
pub enum KeyName {
    Char(char),
    Return,
    Enter,
    Backspace,
    Delete,
    Abort,
    Escape,
    Tab,
    Up,
    Down,
    Left,
    Right,
    Home,
    End,
    PageUp,
    PageDown,
    Unknown,
}

/// Action a prompt element can handle.
#[derive(Debug, Clone, Copy, PartialEq, Eq, Structural)]
pub enum PromptAction {
    First,
    Last,
    Abort,
    Reset,
    Submit,
    Delete,
    DeleteForward,
    Exit,
    Next,
    NextPage,
    PrevPage,
    Up,
    Down,
    Left,
    Right,
    Home,
    End,
}

/// The action for a key held with Ctrl.
pub open spec fn ctrl_action(name: KeyName) -> Option<PromptAction> {
    match name {
        KeyName::Char('a') => Some(PromptAction::First),
        KeyName::Char('c') => Some(PromptAction::Abort),
        KeyName::Char('d') => Some(PromptAction::Abort),
        KeyName::Char('e') => Some(PromptAction::Last),
        KeyName::Char('g') => Some(PromptAction::Reset),
        _ => None,
    }
}

/// The action for a key pressed alone.
pub open spec fn plain_action(name: KeyName) -> Option<PromptAction> {
    match name {
        KeyName::Return => Some(PromptAction::Submit),
        KeyName::Enter => Some(PromptAction::Submit),
        KeyName::Backspace => Some(PromptAction::Delete),
        KeyName::Delete => Some(PromptAction::DeleteForward),
        KeyName::Abort => Some(PromptAction::Abort),
        KeyName::Escape => Some(PromptAction::Exit),
        KeyName::Tab => Some(PromptAction::Next),
        KeyName::PageDown => Some(PromptAction::NextPage),
        KeyName::PageUp => Some(PromptAction::PrevPage),
        KeyName::Home => Some(PromptAction::Home),
        KeyName::End => Some(PromptAction::End),
        KeyName::Up => Some(PromptAction::Up),
        KeyName::Down => Some(PromptAction::Down),
        KeyName::Left => Some(PromptAction::Left),
        KeyName::Right => Some(PromptAction::Right),
        _ => None,
    }
}

/// The action for `key`; `None` means the key is literal typed input. Meta
/// passes every key but Escape through; Ctrl has its own table; in a menu
/// `j` and `k` move down and up.
pub open spec fn action_for(key: Key, is_select: bool) -> Option<PromptAction> {
    if key.meta && key.name != KeyName::Escape {
        None
    } else if key.ctrl {
        ctrl_action(key.name)
    } else if is_select && key.name == KeyName::Char('j') {
        Some(PromptAction::Down)
    } else if is_select && key.name == KeyName::Char('k') {
        Some(PromptAction::Up)
    } else {
        plain_action(key.name)
    }
}

/// Maps key to action. Returns `None` for raw input passthrough (e.g. normal typing).
pub fn key_action(key: &Key, is_select: bool) -> (r: Option<PromptAction>)
    ensures
        r == action_for(*key, is_select),
{
    if key.meta && key.name != KeyName::Escape {
        return None;
    }
    if key.ctrl {
        return match key.name {
            KeyName::Char('a') => Some(PromptAction::First),
            KeyName::Char('c') => Some(PromptAction::Abort),
            KeyName::Char('d') => Some(PromptAction::Abort),
            KeyName::Char('e') => Some(PromptAction::Last),
            KeyName::Char('g') => Some(PromptAction::Reset),
            _ => None,
        };
    }
    if is_select {
        if key.name == KeyName::Char('j') {
            return Some(PromptAction::Down);
        }
        if key.name == KeyName::Char('k') {
            return Some(PromptAction::Up);
        }
    }
    match key.name {
        KeyName::Return | KeyName::Enter => Some(PromptAction::Submit),
        KeyName::Backspace => Some(PromptAction::Delete),
        KeyName::Delete => Some(PromptAction::DeleteForward),
        KeyName::Abort => Some(PromptAction::Abort),
        KeyName::Escape => Some(PromptAction::Exit),
        KeyName::Tab => Some(PromptAction::Next),
        KeyName::PageDown => Some(PromptAction::NextPage),
        KeyName::PageUp => Some(PromptAction::PrevPage),
        KeyName::Home => Some(PromptAction::Home),
        KeyName::End => Some(PromptAction::End),
        KeyName::Up => Some(PromptAction::Up),
        KeyName::Down => Some(PromptAction::Down),
        KeyName::Left => Some(PromptAction::Left),
        KeyName::Right => Some(PromptAction::Right),
        _ => None,
    }
}

} // verus!
