use session_mux::keyboard::{KeyError, KeyModifiers, TerminalState};
use termwiz::input::{KeyCode, KeyboardEncoding};

fn none() -> KeyModifiers {
    KeyModifiers::none()
}

fn ctrl() -> KeyModifiers {
    KeyModifiers { ctrl: true, ..KeyModifiers::none() }
}

fn alt() -> KeyModifiers {
    KeyModifiers { alt: true, ..KeyModifiers::none() }
}

fn shift() -> KeyModifiers {
    KeyModifiers { shift: true, ..KeyModifiers::none() }
}

#[test]
fn modifier_bits_are_those_of_termwiz() {
    assert_eq!(none().bits(), 0);
    assert!(none().is_empty());
    assert_eq!(shift().bits(), termwiz::input::Modifiers::SHIFT.bits());
    assert_eq!(alt().bits(), termwiz::input::Modifiers::ALT.bits());
    assert_eq!(ctrl().bits(), termwiz::input::Modifiers::CTRL.bits());
    let sup = KeyModifiers { super_key: true, ..KeyModifiers::none() };
    assert_eq!(sup.bits(), termwiz::input::Modifiers::SUPER.bits());
    let all = KeyModifiers { shift: true, alt: true, ctrl: true, super_key: true, leader: true };
    assert_eq!(all.bits(), 62);
    assert!(!all.is_empty());
}

#[test]
fn plain_characters_are_sent_as_they_are() {
    let t = TerminalState::new(false);
    assert_eq!(t.key_down(KeyCode::Char('a'), none()), Ok("a".to_string()));
    assert_eq!(t.key_down(KeyCode::Char('é'), none()), Ok("é".to_string()));
}

#[test]
fn control_characters() {
    let t = TerminalState::new(false);
    assert_eq!(t.key_down(KeyCode::Char('c'), ctrl()), Ok("\x03".to_string()));
    assert_eq!(t.key_down(KeyCode::Char('x'), alt()), Ok("\x1bx".to_string()));
    assert_eq!(t.key_down(KeyCode::Char('a'), shift()), Ok("A".to_string()));
}

#[test]
fn enter_follows_the_newline_mode() {
    let mut t = TerminalState::new(false);
    assert_eq!(t.key_down(KeyCode::Enter, none()), Ok("\r".to_string()));
    t.set_newline_mode(true);
    assert_eq!(t.key_down(KeyCode::Enter, none()), Ok("\r\n".to_string()));
    t.set_newline_mode(false);
    assert_eq!(t.key_down(KeyCode::Enter, none()), Ok("\r".to_string()));
}

#[test]
fn cursor_keys_follow_the_application_mode() {
    let mut t = TerminalState::new(false);
    assert_eq!(t.key_down(KeyCode::UpArrow, none()), Ok("\x1b[A".to_string()));
    assert_eq!(t.key_down(KeyCode::LeftArrow, alt()), Ok("\x1b[1;3D".to_string()));
    t.set_application_cursor_keys(true);
    assert_eq!(t.key_down(KeyCode::UpArrow, none()), Ok("\x1bOA".to_string()));
}

#[test]
fn function_keys() {
    let t = TerminalState::new(false);
    assert_eq!(t.key_down(KeyCode::Function(1), none()), Ok("\x1bOP".to_string()));
    assert_eq!(t.key_down(KeyCode::Function(5), none()), Ok("\x1b[15~".to_string()));
    assert_eq!(t.key_down(KeyCode::Function(12), shift()), Ok("\x1b[24;2~".to_string()));
}

#[test]
fn function_keys_without_a_sequence_are_errors() {
    let t = TerminalState::new(false);
    assert_eq!(t.key_down(KeyCode::Function(13), none()), Err(KeyError::UnhandledFunctionKey(13)));
    assert_eq!(t.key_down(KeyCode::Function(255), ctrl()), Err(KeyError::UnhandledFunctionKey(255)));
    assert_eq!(t.key_down(KeyCode::Function(0), none()), Err(KeyError::UnhandledFunctionKey(0)));
    assert_eq!(t.key_down(KeyCode::Function(0), shift()), Err(KeyError::UnhandledFunctionKey(0)));
}

#[test]
fn modifier_keys_alone_send_nothing() {
    let t = TerminalState::new(false);
    assert_eq!(t.key_down(KeyCode::Shift, shift()), Ok(String::new()));
    assert_eq!(t.key_down(KeyCode::Numpad0, none()), Ok(String::new()));
}

#[test]
fn configuration_turns_xterm_into_csi_u() {
    let mut t = TerminalState::new(true);
    assert_eq!(t.effective_keyboard_encoding(), KeyboardEncoding::CsiU);
    t.set_keyboard_encoding(KeyboardEncoding::Win32);
    assert_eq!(t.effective_keyboard_encoding(), KeyboardEncoding::Win32);
    t.set_keyboard_encoding(KeyboardEncoding::CsiU);
    assert_eq!(t.effective_keyboard_encoding(), KeyboardEncoding::CsiU);

    let mut t = TerminalState::new(false);
    assert_eq!(t.effective_keyboard_encoding(), KeyboardEncoding::Xterm);
    t.set_keyboard_encoding(KeyboardEncoding::CsiU);
    assert_eq!(t.effective_keyboard_encoding(), KeyboardEncoding::CsiU);
    t.set_keyboard_encoding(KeyboardEncoding::Win32);
    assert_eq!(t.effective_keyboard_encoding(), KeyboardEncoding::Win32);
}

#[test]
fn effective_encoding_reaches_the_encoder() {
    let xterm = TerminalState::new(false);
    let csi_u = TerminalState::new(true);
    assert_eq!(xterm.key_down(KeyCode::Char('i'), ctrl()), Ok("\t".to_string()));
    assert_eq!(csi_u.key_down(KeyCode::Char('i'), ctrl()), Ok("\x1b[105;5u".to_string()));
}
