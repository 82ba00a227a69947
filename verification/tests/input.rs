use freminal::emulator::TerminalInput;
use freminal::input::{collect_text, control_key, event_to_inputs, terminal_inputs, InputEvent, KeyCode};

#[test]
fn text_becomes_bytes() {
    assert_eq!(
        collect_text(&"ab".to_string()),
        vec![TerminalInput::Ascii(b'a'), TerminalInput::Ascii(b'b')]
    );
    assert_eq!(
        collect_text(&"\u{e9}".to_string()),
        vec![TerminalInput::Ascii(0xc3), TerminalInput::Ascii(0xa9)]
    );
    assert!(collect_text(&String::new()).is_empty());
}

#[test]
fn control_keys() {
    assert_eq!(control_key(KeyCode::Letter(b'C')), Some(vec![TerminalInput::Ctrl(b'C')]));
    assert_eq!(control_key(KeyCode::OpenBracket), Some(vec![TerminalInput::Ctrl(b'[')]));
    assert_eq!(control_key(KeyCode::CloseBracket), Some(vec![TerminalInput::Ctrl(b']')]));
    assert_eq!(control_key(KeyCode::Backslash), Some(vec![TerminalInput::Ctrl(b'\\')]));
    assert_eq!(control_key(KeyCode::Home), None);
}

#[test]
fn events_map_to_keys() {
    let key = |key: KeyCode, pressed: bool, ctrl: bool| InputEvent::Key { key, pressed, ctrl };
    assert_eq!(event_to_inputs(&key(KeyCode::Enter, true, true)), Some(vec![TerminalInput::Enter]));
    assert_eq!(event_to_inputs(&key(KeyCode::Enter, false, false)), None);
    assert_eq!(event_to_inputs(&InputEvent::Copy), Some(vec![TerminalInput::Ctrl(b'c')]));
    assert_eq!(event_to_inputs(&key(KeyCode::ArrowLeft, true, false)), Some(vec![TerminalInput::ArrowLeft]));
    assert_eq!(event_to_inputs(&key(KeyCode::ArrowLeft, true, true)), None);
    assert_eq!(event_to_inputs(&key(KeyCode::Letter(b'D'), true, true)), Some(vec![TerminalInput::Ctrl(b'D')]));
    assert_eq!(event_to_inputs(&key(KeyCode::Letter(b'D'), true, false)), None);
    assert_eq!(event_to_inputs(&key(KeyCode::PageDown, true, false)), Some(vec![TerminalInput::PageDown]));
    assert_eq!(event_to_inputs(&InputEvent::Other), None);

    let events = vec![
        InputEvent::Text("ls".to_string()),
        key(KeyCode::Enter, true, false),
        key(KeyCode::Enter, false, false),
        InputEvent::Other,
        key(KeyCode::Letter(b'C'), true, true),
    ];
    assert_eq!(
        terminal_inputs(&events),
        vec![
            TerminalInput::Ascii(b'l'),
            TerminalInput::Ascii(b's'),
            TerminalInput::Enter,
            TerminalInput::Ctrl(b'C'),
        ]
    );
}
