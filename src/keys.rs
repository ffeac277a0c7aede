use vstd::prelude::*;

verus! {

/// The key that was pressed, as far as the controller distinguishes keys.
#[derive(Clone, Copy, Debug)]
pub enum KeyCode {
    Char(char),
    Enter,
    Backspace,
    Esc,
    Up,
    Down,
    Home,
    End,
    Other,
}

/// A key press: the key and whether the control modifier was held.
#[derive(Clone, Copy, Debug)]
pub struct Key {
    pub code: KeyCode,
    pub ctrl: bool,
}

impl Key {
    pub fn new(code: KeyCode, ctrl: bool) -> (r: Key)
        ensures
            r.code == code,
            r.ctrl == ctrl,
    {
        Key { code, ctrl }
    }
}

/// Is the key `c`, whatever the modifiers.
pub open spec fn is_char(k: Key, c: char) -> bool {
    k.code == KeyCode::Char(c)
}

/// Editing: control+enter or control+'o' commits.
pub open spec fn is_commit(k: Key) -> bool {
    k.ctrl && (k.code == KeyCode::Enter || is_char(k, 'o'))
}

/// Editing: escape or control+'c' cancels.
pub open spec fn is_cancel(k: Key) -> bool {
    k.code == KeyCode::Esc || (k.ctrl && is_char(k, 'c'))
}

/// Editing: backspace (word-backspace with control), or control+'h'.
pub open spec fn is_backspace(k: Key) -> bool {
    k.code == KeyCode::Backspace || (k.ctrl && is_char(k, 'h'))
}

/// Editing: the content that a key which is neither commit nor cancel makes of
/// `s`; `None` when it leaves the buffer as it is.
pub open spec fn edited(k: Key, s: Seq<char>) -> Option<Seq<char>> {
    if is_backspace(k) {
        if s.len() == 0 {
            None
        } else if k.ctrl {
            Some(crate::text::word_backspace(s))
        } else {
            Some(s.drop_last())
        }
    } else {
        match k.code {
            KeyCode::Enter => Some(s.push('\n')),
            KeyCode::Char(c) => Some(s.push(c)),
            _ => None,
        }
    }
}

/// Browsing: 'q' or escape quits.
pub open spec fn is_quit(k: Key) -> bool {
    is_char(k, 'q') || k.code == KeyCode::Esc
}

/// Browsing: 'e', space or enter opens the selected entry (or a new one).
pub open spec fn is_open(k: Key) -> bool {
    is_char(k, 'e') || is_char(k, ' ') || k.code == KeyCode::Enter
}

pub open spec fn is_down(k: Key) -> bool {
    is_char(k, 'j') || k.code == KeyCode::Down
}

pub open spec fn is_up(k: Key) -> bool {
    is_char(k, 'k') || k.code == KeyCode::Up
}

pub open spec fn is_first(k: Key) -> bool {
    is_char(k, 'g') || k.code == KeyCode::Home
}

pub open spec fn is_last(k: Key) -> bool {
    is_char(k, 'G') || k.code == KeyCode::End
}

} // verus!
