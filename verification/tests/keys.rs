use caddyup::app::Mode;
use caddyup::keys::{key_command, Key, KeyCommand, KeyPress};

fn press(key: Key) -> KeyPress {
    KeyPress { key, ctrl: false }
}

#[test]
fn navigation_bindings() {
    let nav = |k| key_command(Mode::Navigate, press(k));
    assert_eq!(nav(Key::Char('q')), KeyCommand::Quit);
    assert_eq!(nav(Key::Esc), KeyCommand::Quit);
    assert_eq!(
        key_command(Mode::Navigate, KeyPress { key: Key::Char('c'), ctrl: true }),
        KeyCommand::Quit
    );
    assert_eq!(nav(Key::Char('c')), KeyCommand::Nothing);
    assert_eq!(nav(Key::Char('s')), KeyCommand::Save);
    assert_eq!(nav(Key::Char('a')), KeyCommand::AddSite);
    assert_eq!(nav(Key::Char('d')), KeyCommand::DeleteSite);
    assert_eq!(nav(Key::Up), KeyCommand::MoveField(-1));
    assert_eq!(nav(Key::Char('j')), KeyCommand::MoveField(1));
    assert_eq!(nav(Key::Char('h')), KeyCommand::MoveSite(-1));
    assert_eq!(nav(Key::Right), KeyCommand::MoveSite(1));
    assert_eq!(nav(Key::Char(' ')), KeyCommand::BeginEdit);
    assert_eq!(nav(Key::Enter), KeyCommand::BeginEdit);
    assert_eq!(nav(Key::Backspace), KeyCommand::Nothing);
}

#[test]
fn edit_bindings() {
    let edit = |k| key_command(Mode::Edit, press(k));
    assert_eq!(edit(Key::Esc), KeyCommand::CancelEdit);
    assert_eq!(edit(Key::Enter), KeyCommand::CommitEdit);
    assert_eq!(edit(Key::Backspace), KeyCommand::DeleteChar);
    assert_eq!(edit(Key::Char('q')), KeyCommand::TypeChar('q'));
    assert_eq!(edit(Key::Char('c')), KeyCommand::TypeChar('c'));
    assert_eq!(
        key_command(Mode::Edit, KeyPress { key: Key::Char('c'), ctrl: true }),
        KeyCommand::Quit
    );
    assert_eq!(edit(Key::Up), KeyCommand::Nothing);
}
