//! Keys as the key state machine takes them, and how events become keys.
use vstd::prelude::*;

use crate::types::{Input as PlannedInput, SpecialKey};

verus! {

/// A key.
#[derive(Debug, Clone, Copy, PartialEq, Eq, Structural)]
pub enum Key {
    Char(char),
    Backspace,
    Delete,
    Enter,
    Left,
    Right,
    Up,
    Down,
    Home,
    End,
    PageUp,
    PageDown,
    Tab,
    Esc,
    /// A key without a meaning.
    Null,
}

/// A key with the modifiers held down.
#[derive(Debug, Clone, Copy, PartialEq, Eq, Structural)]
pub struct Input {
    pub key: Key,
    pub ctrl: bool,
    pub alt: bool,
    pub shift: bool,
}

/// A key as a terminal reports it.
#[derive(Debug, Clone, Copy, PartialEq, Eq, Structural)]
pub enum TermKey {
    Char(char),
    Backspace,
    Delete,
    Enter,
    Left,
    Right,
    Up,
    Down,
    Home,
    End,
    PageUp,
    PageDown,
    Tab,
    BackTab,
    Insert,
    Esc,
    F(u8),
    /// Any key this list does not have.
    Other,
}

/// The key that a special key stands for. Back tab is a tab, and keys without
/// a meaning are null keys.
pub open spec fn key_for_special(k: SpecialKey) -> Key {
    match k {
        SpecialKey::Esc => Key::Esc,
        SpecialKey::Enter => Key::Enter,
        SpecialKey::Backspace => Key::Backspace,
        SpecialKey::Tab => Key::Tab,
        SpecialKey::BackTab => Key::Tab,
        SpecialKey::Up => Key::Up,
        SpecialKey::Down => Key::Down,
        SpecialKey::Left => Key::Left,
        SpecialKey::Right => Key::Right,
        SpecialKey::Home => Key::Home,
        SpecialKey::End => Key::End,
        SpecialKey::PageUp => Key::PageUp,
        SpecialKey::PageDown => Key::PageDown,
        SpecialKey::Insert => Key::Null,
        SpecialKey::Delete => Key::Delete,
        SpecialKey::F(_) => Key::Null,
    }
}

/// The key event of an input event. Events that are no keys, and keys without
/// a meaning, have none; a back tab is a tab with shift held down.
pub open spec fn key_event(e: PlannedInput) -> Option<Input> {
    match e {
        PlannedInput::Char(c, m) => Some(
            Input { key: Key::Char(c), ctrl: m.ctrl, alt: m.alt, shift: m.shift },
        ),
        PlannedInput::Key(k, m) => if key_for_special(k) == Key::Null {
            None
        } else {
            Some(
                Input {
                    key: key_for_special(k),
                    ctrl: m.ctrl,
                    alt: m.alt,
                    shift: m.shift || k is BackTab,
                },
            )
        },
        _ => None,
    }
}

fn special_to_key(k: SpecialKey) -> (key: Key)
    ensures
        key == key_for_special(k),
{
    match k {
        SpecialKey::Esc => Key::Esc,
        SpecialKey::Enter => Key::Enter,
        SpecialKey::Backspace => Key::Backspace,
        SpecialKey::Tab => Key::Tab,
        SpecialKey::BackTab => Key::Tab,
        SpecialKey::Up => Key::Up,
        SpecialKey::Down => Key::Down,
        SpecialKey::Left => Key::Left,
        SpecialKey::Right => Key::Right,
        SpecialKey::Home => Key::Home,
        SpecialKey::End => Key::End,
        SpecialKey::PageUp => Key::PageUp,
        SpecialKey::PageDown => Key::PageDown,
        SpecialKey::Insert => Key::Null,
        SpecialKey::Delete => Key::Delete,
        SpecialKey::F(_) => Key::Null,
    }
}

/// The key event that an input event stands for.
pub fn input_to_key(e: &PlannedInput) -> (r: Option<Input>)
    ensures
        r == key_event(*e),
{
    let (key, mods, back_tab) = match e {
        PlannedInput::Char(c, m) => (Key::Char(*c), *m, false),
        PlannedInput::Key(k, m) => (special_to_key(*k), *m, matches!(*k, SpecialKey::BackTab)),
        PlannedInput::Mouse(_)
        | PlannedInput::Paste(_)
        | PlannedInput::FocusGained
        | PlannedInput::FocusLost
        | PlannedInput::Resize(_, _) => {
            return None;
        },
    };
    if key == Key::Null {
        return None;
    }
    Some(Input { key, ctrl: mods.ctrl, alt: mods.alt, shift: mods.shift || back_tab })
}

/// The key that a terminal's key stands for; the rest are null keys.
pub open spec fn key_for_term(k: TermKey) -> Key {
    match k {
        TermKey::Char(c) => Key::Char(c),
        TermKey::Backspace => Key::Backspace,
        TermKey::Delete => Key::Delete,
        TermKey::Enter => Key::Enter,
        TermKey::Left => Key::Left,
        TermKey::Right => Key::Right,
        TermKey::Up => Key::Up,
        TermKey::Down => Key::Down,
        TermKey::Home => Key::Home,
        TermKey::End => Key::End,
        TermKey::Tab => Key::Tab,
        TermKey::Esc => Key::Esc,
        _ => Key::Null,
    }
}

/// The key event of a terminal's key.
pub fn term_to_input(k: TermKey, ctrl: bool, alt: bool, shift: bool) -> (r: Input)
    ensures
        r == (Input { key: key_for_term(k), ctrl, alt, shift }),
{
    let key = match k {
        TermKey::Char(c) => Key::Char(c),
        TermKey::Backspace => Key::Backspace,
        TermKey::Delete => Key::Delete,
        TermKey::Enter => Key::Enter,
        TermKey::Left => Key::Left,
        TermKey::Right => Key::Right,
        TermKey::Up => Key::Up,
        TermKey::Down => Key::Down,
        TermKey::Home => Key::Home,
        TermKey::End => Key::End,
        TermKey::Tab => Key::Tab,
        TermKey::Esc => Key::Esc,
        _ => Key::Null,
    };
    Input { key, ctrl, alt, shift }
}

/// An event never turns into a null key.
pub proof fn law_key_events_have_a_meaning(e: PlannedInput)
    ensures
        key_event(e) matches Some(i) ==> i.key != Key::Null,
{
}

/// A typed character and each special key come through as themselves, with the
/// modifiers that were held; a back tab comes as a tab with shift. Keys without a
/// meaning, and events that are no keys, do not come through.
pub proof fn law_keys_come_through(e: PlannedInput)
    ensures
        match e {
            PlannedInput::Char(c, m) => key_event(e) matches Some(i) && i.key == Key::Char(c)
                && i.ctrl == m.ctrl && i.alt == m.alt && i.shift == m.shift,
            PlannedInput::Key(k, m) => {
                &&& key_event(e) is None <==> k is Insert || k is F
                &&& key_event(e) matches Some(i) ==> {
                    &&& i.ctrl == m.ctrl && i.alt == m.alt
                    &&& i.shift == (m.shift || k is BackTab)
                    &&& i.key == Key::Esc <==> k is Esc
                    &&& i.key == Key::Enter <==> k is Enter
                    &&& i.key == Key::Backspace <==> k is Backspace
                    &&& i.key == Key::Tab <==> k is Tab || k is BackTab
                    &&& i.key == Key::Up <==> k is Up
                    &&& i.key == Key::Down <==> k is Down
                    &&& i.key == Key::Left <==> k is Left
                    &&& i.key == Key::Right <==> k is Right
                    &&& i.key == Key::Home <==> k is Home
                    &&& i.key == Key::End <==> k is End
                    &&& i.key == Key::PageUp <==> k is PageUp
                    &&& i.key == Key::PageDown <==> k is PageDown
                    &&& i.key == Key::Delete <==> k is Delete
                }
            },
            _ => key_event(e) is None,
        },
{
}

/// The keys of a terminal that the engine has come through as themselves, and all
/// others as null keys.
pub proof fn law_terminal_keys(k: TermKey)
    ensures
        ({
            let key = key_for_term(k);
            &&& k matches TermKey::Char(c) ==> key == Key::Char(c)
            &&& key == Key::Backspace <==> k is Backspace
            &&& key == Key::Delete <==> k is Delete
            &&& key == Key::Enter <==> k is Enter
            &&& key == Key::Left <==> k is Left
            &&& key == Key::Right <==> k is Right
            &&& key == Key::Up <==> k is Up
            &&& key == Key::Down <==> k is Down
            &&& key == Key::Home <==> k is Home
            &&& key == Key::End <==> k is End
            &&& key == Key::Tab <==> k is Tab
            &&& key == Key::Esc <==> k is Esc
            &&& key != Key::PageUp && key != Key::PageDown
        }),
{
}

} // verus!
