//! Which editor operation a key press asks for.
use vstd::prelude::*;
use crate::app::Mode;

verus! {

/// A key, as the editor distinguishes keys.
#[derive(Clone, Copy, Debug, PartialEq, Eq, Structural)]
pub enum Key {
    Char(char),
    Esc,
    Enter,
    Backspace,
    Up,
    Down,
    Left,
    Right,
    Other,
}

/// A key press: the key and whether Control was held.
#[derive(Clone, Copy, Debug, PartialEq, Eq, Structural)]
pub struct KeyPress {
    pub key: Key,
    pub ctrl: bool,
}

/// The editor operation that a key press asks for.
#[derive(Clone, Copy, Debug, PartialEq, Eq, Structural)]
pub enum KeyCommand {
    Nothing,
    Quit,
    Save,
    AddSite,
    DeleteSite,
    MoveField(isize),
    MoveSite(isize),
    BeginEdit,
    CancelEdit,
    CommitEdit,
    DeleteChar,
    TypeChar(char),
}

/// The key bindings.  While navigating: `q`, Esc or Control-`c` quit, `s`
/// saves, `a` adds and `d` deletes a server, Up/`k` and Down/`j` move
/// between fields, Left/`h` and Right/`l` between servers, Enter or space
/// edit.  While editing: Esc cancels, Enter applies, Backspace deletes a
/// character, Control-`c` quits, and any other character is typed.
pub open spec fn command_for(mode: Mode, press: KeyPress) -> KeyCommand {
    let k = press.key;
    match mode {
        Mode::Navigate => {
            if k == Key::Char('q') || k == Key::Esc {
                KeyCommand::Quit
            } else if k == Key::Char('c') && press.ctrl {
                KeyCommand::Quit
            } else if k == Key::Char('s') {
                KeyCommand::Save
            } else if k == Key::Char('a') {
                KeyCommand::AddSite
            } else if k == Key::Char('d') {
                KeyCommand::DeleteSite
            } else if k == Key::Up || k == Key::Char('k') {
                KeyCommand::MoveField(-1isize)
            } else if k == Key::Down || k == Key::Char('j') {
                KeyCommand::MoveField(1isize)
            } else if k == Key::Left || k == Key::Char('h') {
                KeyCommand::MoveSite(-1isize)
            } else if k == Key::Right || k == Key::Char('l') {
                KeyCommand::MoveSite(1isize)
            } else if k == Key::Enter || k == Key::Char(' ') {
                KeyCommand::BeginEdit
            } else {
                KeyCommand::Nothing
            }
        },
        Mode::Edit => {
            if k == Key::Esc {
                KeyCommand::CancelEdit
            } else if k == Key::Enter {
                KeyCommand::CommitEdit
            } else if k == Key::Backspace {
                KeyCommand::DeleteChar
            } else if k == Key::Char('c') && press.ctrl {
                KeyCommand::Quit
            } else {
                match k {
                    Key::Char(c) => KeyCommand::TypeChar(c),
                    _ => KeyCommand::Nothing,
                }
            }
        },
    }
}

/// The editor operation that `press` asks for in `mode`.
pub fn key_command(mode: Mode, press: KeyPress) -> (c: KeyCommand)
    ensures
        c == command_for(mode, press),
{
    let k = press.key;
    match mode {
        Mode::Navigate => {
            if k == Key::Char('q') || k == Key::Esc {
                KeyCommand::Quit
            } else if k == Key::Char('c') && press.ctrl {
                KeyCommand::Quit
            } else if k == Key::Char('s') {
                KeyCommand::Save
            } else if k == Key::Char('a') {
                KeyCommand::AddSite
            } else if k == Key::Char('d') {
                KeyCommand::DeleteSite
            } else if k == Key::Up || k == Key::Char('k') {
                KeyCommand::MoveField(-1)
            } else if k == Key::Down || k == Key::Char('j') {
                KeyCommand::MoveField(1)
            } else if k == Key::Left || k == Key::Char('h') {
                KeyCommand::MoveSite(-1)
            } else if k == Key::Right || k == Key::Char('l') {
                KeyCommand::MoveSite(1)
            } else if k == Key::Enter || k == Key::Char(' ') {
                KeyCommand::BeginEdit
            } else {
                KeyCommand::Nothing
            }
        },
        Mode::Edit => {
            if k == Key::Esc {
                KeyCommand::CancelEdit
            } else if k == Key::Enter {
                KeyCommand::CommitEdit
            } else if k == Key::Backspace {
                KeyCommand::DeleteChar
            } else if k == Key::Char('c') && press.ctrl {
                KeyCommand::Quit
            } else {
                match k {
                    Key::Char(c) => KeyCommand::TypeChar(c),
                    _ => KeyCommand::Nothing,
                }
            }
        },
    }
}

/// While navigating, each letter key moves as its arrow does, with or
/// without Control: `k` as Up and `j` as Down between fields, `h` as Left
/// and `l` as Right between servers; Up and Down (and Left and Right) move
/// one step in opposite directions, Up and Left towards the start.
pub proof fn law_letter_keys_match_arrows(ctrl: bool)
    ensures
        command_for(Mode::Navigate, KeyPress { key: Key::Char('k'), ctrl }) == command_for(
            Mode::Navigate,
            KeyPress { key: Key::Up, ctrl },
        ),
        command_for(Mode::Navigate, KeyPress { key: Key::Char('j'), ctrl }) == command_for(
            Mode::Navigate,
            KeyPress { key: Key::Down, ctrl },
        ),
        command_for(Mode::Navigate, KeyPress { key: Key::Char('h'), ctrl }) == command_for(
            Mode::Navigate,
            KeyPress { key: Key::Left, ctrl },
        ),
        command_for(Mode::Navigate, KeyPress { key: Key::Char('l'), ctrl }) == command_for(
            Mode::Navigate,
            KeyPress { key: Key::Right, ctrl },
        ),
        ({
            let up = command_for(Mode::Navigate, KeyPress { key: Key::Up, ctrl });
            let down = command_for(Mode::Navigate, KeyPress { key: Key::Down, ctrl });
            &&& up matches KeyCommand::MoveField(u) && u == -1
            &&& down matches KeyCommand::MoveField(d) && d == 1
        }),
        ({
            let left = command_for(Mode::Navigate, KeyPress { key: Key::Left, ctrl });
            let right = command_for(Mode::Navigate, KeyPress { key: Key::Right, ctrl });
            &&& left matches KeyCommand::MoveSite(u) && u == -1
            &&& right matches KeyCommand::MoveSite(d) && d == 1
        }),
{
}

} // verus!
