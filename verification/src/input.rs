use vstd::prelude::*;

use crate::emulator::TerminalInput;

verus! {

/// A key of the keyboard, as far as the terminal tells keys apart.
#[derive(Clone, Copy, Debug, PartialEq, Eq, Structural)]
pub enum KeyCode {
    /// A letter key, by the upper-case letter it is named after.
    Letter(u8),
    OpenBracket,
    CloseBracket,
    Backslash,
    Enter,
    Backspace,
    ArrowUp,
    ArrowDown,
    ArrowLeft,
    ArrowRight,
    Home,
    End,
    Delete,
    Insert,
    PageUp,
    PageDown,
    /// Any other key.
    Other,
}

/// An event of the window that may carry keyboard input.
#[derive(Clone, Debug, PartialEq, Eq)]
pub enum InputEvent {
    /// Text typed.
    Text(String),
    /// A key went down (`pressed`) or up, with Ctrl held or not.
    Key { key: KeyCode, pressed: bool, ctrl: bool },
    /// The copy shortcut.
    Copy,
    /// Anything else.
    Other,
}

/// The mathematical value of an [`InputEvent`].
pub ghost enum EventModel {
    Text(Seq<char>),
    Key { key: KeyCode, pressed: bool, ctrl: bool },
    Copy,
    Other,
}

impl DeepView for InputEvent {
    type V = EventModel;

    open spec fn deep_view(&self) -> EventModel {
        match self {
            InputEvent::Text(s) => EventModel::Text(s@),
            InputEvent::Key { key, pressed, ctrl } => EventModel::Key {
                key: *key,
                pressed: *pressed,
                ctrl: *ctrl,
            },
            InputEvent::Copy => EventModel::Copy,
            InputEvent::Other => EventModel::Other,
        }
    }
}

/// Typed text, one key per byte of its UTF-8 encoding.
pub open spec fn text_inputs(bytes: Seq<u8>) -> Seq<TerminalInput> {
    Seq::new(bytes.len(), |i: int| TerminalInput::Ascii(bytes[i]))
}

/// What a key pressed with Ctrl sends: a letter or one of `[`, `]`, `\`
/// with Ctrl; other keys send nothing.
pub open spec fn control_key_inputs(key: KeyCode) -> Option<Seq<TerminalInput>> {
    match key {
        KeyCode::Letter(c) => Some(seq![TerminalInput::Ctrl(c)]),
        KeyCode::OpenBracket => Some(seq![TerminalInput::Ctrl(0x5b)]),
        KeyCode::CloseBracket => Some(seq![TerminalInput::Ctrl(0x5d)]),
        KeyCode::Backslash => Some(seq![TerminalInput::Ctrl(0x5c)]),
        _ => None,
    }
}

/// The key that a pressed editing or cursor key sends, for keys that send
/// one.
pub open spec fn plain_key_input(key: KeyCode) -> Option<TerminalInput> {
    match key {
        KeyCode::Backspace => Some(TerminalInput::Backspace),
        KeyCode::ArrowUp => Some(TerminalInput::ArrowUp),
        KeyCode::ArrowDown => Some(TerminalInput::ArrowDown),
        KeyCode::ArrowLeft => Some(TerminalInput::ArrowLeft),
        KeyCode::ArrowRight => Some(TerminalInput::ArrowRight),
        KeyCode::Home => Some(TerminalInput::Home),
        KeyCode::End => Some(TerminalInput::End),
        KeyCode::Delete => Some(TerminalInput::Delete),
        KeyCode::Insert => Some(TerminalInput::Insert),
        KeyCode::PageUp => Some(TerminalInput::PageUp),
        KeyCode::PageDown => Some(TerminalInput::PageDown),
        _ => None,
    }
}

/// What an event sends to the terminal, when it sends anything: typed text
/// byte by byte; Enter (with or without Ctrl); Ctrl-C for copy; a key
/// pressed with Ctrl as [`control_key_inputs`] says; and the editing and
/// cursor keys. Released keys and other events send nothing.
pub open spec fn event_inputs(e: EventModel) -> Option<Seq<TerminalInput>> {
    match e {
        EventModel::Text(t) => Some(text_inputs(vstd::utf8::encode_utf8(t))),
        EventModel::Key { key, pressed, ctrl } => if !pressed {
            None
        } else if key == KeyCode::Enter {
            Some(seq![TerminalInput::Enter])
        } else if ctrl {
            control_key_inputs(key)
        } else {
            match plain_key_input(key) {
                Some(i) => Some(seq![i]),
                None => None,
            }
        },
        EventModel::Copy => Some(seq![TerminalInput::Ctrl(0x63)]),
        EventModel::Other => None,
    }
}

/// What a run of events sends, in order.
pub open spec fn events_inputs(es: Seq<EventModel>) -> Seq<TerminalInput>
    decreases es.len(),
{
    if es.len() == 0 {
        Seq::empty()
    } else {
        events_inputs(es.drop_last()) + match event_inputs(es.last()) {
            Some(s) => s,
            None => Seq::empty(),
        }
    }
}

/// Typed text as keys, one per byte of its UTF-8 encoding.
pub fn collect_text(text: &String) -> (r: Vec<TerminalInput>)
    ensures
        r@ == text_inputs(vstd::utf8::encode_utf8(text@)),
{
    let bytes = text.as_str().as_bytes_vec();
    let mut out: Vec<TerminalInput> = Vec::new();
    let mut i: usize = 0;
    while i < bytes.len()
        invariant
            i <= bytes@.len(),
            out@ == text_inputs(bytes@.take(i as int)),
        decreases bytes@.len() - i,
    {
        out.push(TerminalInput::Ascii(bytes[i]));
        i += 1;
        assert(out@ =~= text_inputs(bytes@.take(i as int)));
    }
    assert(bytes@.take(bytes@.len() as int) =~= bytes@);
    out
}

/// What a key pressed with Ctrl sends (see [`control_key_inputs`]).
pub fn control_key(key: KeyCode) -> (r: Option<Vec<TerminalInput>>)
    ensures
        match control_key_inputs(key) {
            Some(s) => r matches Some(v) && v@ == s,
            None => r is None,
        },
{
    match key {
        KeyCode::Letter(c) => Some(vec![TerminalInput::Ctrl(c)]),
        KeyCode::OpenBracket => Some(vec![TerminalInput::Ctrl(0x5b)]),
        KeyCode::CloseBracket => Some(vec![TerminalInput::Ctrl(0x5d)]),
        KeyCode::Backslash => Some(vec![TerminalInput::Ctrl(0x5c)]),
        _ => None,
    }
}

/// What one event sends (see [`event_inputs`]).
pub fn event_to_inputs(event: &InputEvent) -> (r: Option<Vec<TerminalInput>>)
    ensures
        match event_inputs(event.deep_view()) {
            Some(s) => r matches Some(v) && v@ == s,
            None => r is None,
        },
{
    match event {
        InputEvent::Text(text) => Some(collect_text(text)),
        InputEvent::Key { key, pressed, ctrl } => {
            if !*pressed {
                None
            } else if *key == KeyCode::Enter {
                Some(vec![TerminalInput::Enter])
            } else if *ctrl {
                control_key(*key)
            } else {
                let single = match key {
                    KeyCode::Backspace => Some(TerminalInput::Backspace),
                    KeyCode::ArrowUp => Some(TerminalInput::ArrowUp),
                    KeyCode::ArrowDown => Some(TerminalInput::ArrowDown),
                    KeyCode::ArrowLeft => Some(TerminalInput::ArrowLeft),
                    KeyCode::ArrowRight => Some(TerminalInput::ArrowRight),
                    KeyCode::Home => Some(TerminalInput::Home),
                    KeyCode::End => Some(TerminalInput::End),
                    KeyCode::Delete => Some(TerminalInput::Delete),
                    KeyCode::Insert => Some(TerminalInput::Insert),
                    KeyCode::PageUp => Some(TerminalInput::PageUp),
                    KeyCode::PageDown => Some(TerminalInput::PageDown),
                    _ => None,
                };
                match single {
                    Some(i) => Some(vec![i]),
                    None => None,
                }
            }
        },
        InputEvent::Copy => Some(vec![TerminalInput::Ctrl(0x63)]),
        InputEvent::Other => None,
    }
}

/// What a run of events sends, in order (see [`events_inputs`]): the keys
/// that the window passes on to the terminal.
pub fn terminal_inputs(events: &Vec<InputEvent>) -> (r: Vec<TerminalInput>)
    ensures
        r@ == events_inputs(events.deep_view()),
{
    let ghost es = events.deep_view();
    let mut out: Vec<TerminalInput> = Vec::new();
    let mut i: usize = 0;
    proof {
        assert(es.take(0) =~= Seq::<EventModel>::empty());
    }
    while i < events.len()
        invariant
            i <= events@.len(),
            es == events.deep_view(),
            out@ == events_inputs(es.take(i as int)),
        decreases events@.len() - i,
    {
        assert(es.take(i + 1).drop_last() =~= es.take(i as int));
        assert(es[i as int] == events@[i as int].deep_view());
        match event_to_inputs(&events[i]) {
            Some(v) => {
                let mut j: usize = 0;
                let ghost before = out@;
                while j < v.len()
                    invariant
                        j <= v@.len(),
                        out@ == before + v@.take(j as int),
                    decreases v@.len() - j,
                {
                    out.push(v[j]);
                    j += 1;
                    assert(out@ =~= before + v@.take(j as int));
                }
                assert(v@.take(v@.len() as int) =~= v@);
            },
            None => {
                assert(out@ =~= out@ + Seq::<TerminalInput>::empty());
            },
        }
        i += 1;
    }
    assert(es.take(es.len() as int) =~= es);
    out
}

} // verus!
