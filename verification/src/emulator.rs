use vstd::prelude::*;

use crate::buffer::TerminalSections;
use crate::format_tracker::{copy_tag, opt_seq, FormatTag, TagModel};
use crate::vec_lemmas::lemma_push_deep_view;

verus! {

/// The control code that Ctrl and a key send: the low five bits of the
/// key's byte.
pub fn char_to_ctrl_code(c: u8) -> (r: u8)
    ensures
        r == c % 32,
{
    assert(c & 0x1f == c % 32) by (bit_vector);
    c & 0x1f
}

/// What a key press sends to the program running in the terminal.
#[derive(Debug, Clone, PartialEq, Eq)]
pub enum TerminalInputPayload {
    Single(u8),
    Many(Vec<u8>),
}

/// The mathematical value of a [`TerminalInputPayload`].
pub ghost enum PayloadModel {
    Single(u8),
    Many(Seq<u8>),
}

impl DeepView for TerminalInputPayload {
    type V = PayloadModel;

    open spec fn deep_view(&self) -> PayloadModel {
        match self {
            TerminalInputPayload::Single(b) => PayloadModel::Single(*b),
            TerminalInputPayload::Many(v) => PayloadModel::Many(v@),
        }
    }
}

/// A key press that the terminal passes on.
#[derive(Clone, Copy, Debug, PartialEq, Eq, Structural)]
pub enum TerminalInput {
    /// A key with a byte of its own.
    Ascii(u8),
    /// A key together with Ctrl.
    Ctrl(u8),
    Enter,
    Backspace,
    ArrowRight,
    ArrowLeft,
    ArrowUp,
    ArrowDown,
    Home,
    End,
    Delete,
    Insert,
    PageUp,
    PageDown,
}

/// The escape sequence of a cursor key: `ESC O k` in application cursor
/// key mode (DECCKM), `ESC [ k` otherwise.
pub open spec fn cursor_key(decckm_mode: bool, k: u8) -> PayloadModel {
    if decckm_mode {
        PayloadModel::Many(seq![0x1bu8, 0x4fu8, k])
    } else {
        PayloadModel::Many(seq![0x1bu8, 0x5bu8, k])
    }
}

/// The escape sequence `ESC [ n ~` of an editing key.
pub open spec fn tilde_key(n: u8) -> PayloadModel {
    PayloadModel::Many(seq![0x1bu8, 0x5bu8, n, 0x7eu8])
}

/// What a key press sends (VT100 and VT510 conventions).
pub open spec fn payload_of(input: TerminalInput, decckm_mode: bool) -> PayloadModel {
    match input {
        TerminalInput::Ascii(c) => PayloadModel::Single(c),
        TerminalInput::Ctrl(c) => PayloadModel::Single(c % 32),
        TerminalInput::Enter => PayloadModel::Single(0x0a),
        TerminalInput::Backspace => PayloadModel::Single(0x7f),
        TerminalInput::ArrowRight => cursor_key(decckm_mode, 0x43),
        TerminalInput::ArrowLeft => cursor_key(decckm_mode, 0x44),
        TerminalInput::ArrowUp => cursor_key(decckm_mode, 0x41),
        TerminalInput::ArrowDown => cursor_key(decckm_mode, 0x42),
        TerminalInput::Home => cursor_key(decckm_mode, 0x48),
        TerminalInput::End => cursor_key(decckm_mode, 0x46),
        TerminalInput::Delete => tilde_key(0x33),
        TerminalInput::Insert => tilde_key(0x32),
        TerminalInput::PageUp => tilde_key(0x35),
        TerminalInput::PageDown => tilde_key(0x36),
    }
}

/// Whether a key is one of the cursor keys: an arrow, Home or End.
pub open spec fn is_cursor_key(input: TerminalInput) -> bool {
    ||| input is ArrowRight
    ||| input is ArrowLeft
    ||| input is ArrowUp
    ||| input is ArrowDown
    ||| input is Home
    ||| input is End
}

/// The final letter that each cursor key is named by in VT100 sequences:
/// up `A`, down `B`, right `C`, left `D`, home `H`, end `F`.
pub open spec fn cursor_key_letter(input: TerminalInput) -> char {
    match input {
        TerminalInput::ArrowUp => 'A',
        TerminalInput::ArrowDown => 'B',
        TerminalInput::ArrowRight => 'C',
        TerminalInput::ArrowLeft => 'D',
        TerminalInput::Home => 'H',
        _ => 'F',
    }
}

/// Each cursor key sends escape, then `O` in application cursor key mode or
/// `[` otherwise, then its own letter; so two different cursor keys never
/// send the same bytes in the same mode.
pub proof fn lemma_cursor_keys_send_their_letter(a: TerminalInput, b: TerminalInput, decckm_mode: bool)
    requires
        is_cursor_key(a),
    ensures
        payload_of(a, decckm_mode) == PayloadModel::Many(
            seq![0x1bu8, if decckm_mode {
                'O' as u8
            } else {
                '[' as u8
            }, cursor_key_letter(a) as u8],
        ),
        is_cursor_key(b) && a != b ==> payload_of(a, decckm_mode) != payload_of(b, decckm_mode),
{
    if is_cursor_key(b) && a != b {
        assert(payload_of(a, decckm_mode)->Many_0[2] != payload_of(b, decckm_mode)->Many_0[2]);
    }
}

/// What the other keys send: a key with a byte of its own sends that byte,
/// Ctrl with a key sends the key's byte with all but its low five bits
/// cleared, Enter sends a line feed, Backspace sends DEL (0x7f), and the
/// editing keys send `ESC [ n ~` with n = 2 for Insert, 3 for Delete, 5 for
/// Page Up and 6 for Page Down; none of them depends on the cursor key mode.
/// Two different keys other than `Ascii` and `Ctrl` never send the same
/// bytes in the same mode.
pub proof fn lemma_other_keys(c: u8, a: TerminalInput, b: TerminalInput, decckm_mode: bool)
    ensures
        payload_of(TerminalInput::Ascii(c), decckm_mode) == PayloadModel::Single(c),
        payload_of(TerminalInput::Ctrl(c), decckm_mode) == PayloadModel::Single(c & 0x1f),
        payload_of(TerminalInput::Enter, decckm_mode) == PayloadModel::Single(0x0a),
        payload_of(TerminalInput::Backspace, decckm_mode) == PayloadModel::Single(0x7f),
        payload_of(TerminalInput::Insert, decckm_mode) == PayloadModel::Many(seq![0x1bu8, '[' as u8, '2' as u8, '~' as u8]),
        payload_of(TerminalInput::Delete, decckm_mode) == PayloadModel::Many(seq![0x1bu8, '[' as u8, '3' as u8, '~' as u8]),
        payload_of(TerminalInput::PageUp, decckm_mode) == PayloadModel::Many(seq![0x1bu8, '[' as u8, '5' as u8, '~' as u8]),
        payload_of(TerminalInput::PageDown, decckm_mode) == PayloadModel::Many(seq![0x1bu8, '[' as u8, '6' as u8, '~' as u8]),
        !(a is Ascii) && !(a is Ctrl) && !(b is Ascii) && !(b is Ctrl) && a != b ==> payload_of(a, decckm_mode)
            != payload_of(b, decckm_mode),
{
    assert(c % 32 == c & 0x1f) by (bit_vector);
    let pa = payload_of(a, decckm_mode);
    let pb = payload_of(b, decckm_mode);
    if !(a is Ascii) && !(a is Ctrl) && !(b is Ascii) && !(b is Ctrl) && a != b {
        if pa is Many && pb is Many && pa->Many_0.len() == pb->Many_0.len() {
            assert(pa->Many_0[2] != pb->Many_0[2]);
        }
    }
}

/// Application cursor key mode (DECCKM) changes what the cursor keys send,
/// and nothing else: every other key sends the same in both modes.
pub proof fn lemma_decckm_changes_only_cursor_keys(input: TerminalInput)
    ensures
        is_cursor_key(input) <==> payload_of(input, true) != payload_of(input, false),
{
    if is_cursor_key(input) {
        let t = payload_of(input, true);
        let f = payload_of(input, false);
        assert(t->Many_0[1] != f->Many_0[1]);
    }
}

fn cursor_key_bytes(decckm_mode: bool, k: u8) -> (r: TerminalInputPayload)
    ensures
        r.deep_view() == cursor_key(decckm_mode, k),
{
    let v = if decckm_mode {
        vec![0x1bu8, 0x4fu8, k]
    } else {
        vec![0x1bu8, 0x5bu8, k]
    };
    assert(v@ =~= (if decckm_mode {
        seq![0x1bu8, 0x4fu8, k]
    } else {
        seq![0x1bu8, 0x5bu8, k]
    }));
    TerminalInputPayload::Many(v)
}

fn tilde_key_bytes(n: u8) -> (r: TerminalInputPayload)
    ensures
        r.deep_view() == tilde_key(n),
{
    let v = vec![0x1bu8, 0x5bu8, n, 0x7eu8];
    assert(v@ =~= seq![0x1bu8, 0x5bu8, n, 0x7eu8]);
    TerminalInputPayload::Many(v)
}

impl TerminalInput {
    /// What this key press sends, with application cursor keys when
    /// `decckm_mode` is set.
    pub fn to_payload(&self, decckm_mode: bool) -> (r: TerminalInputPayload)
        ensures
            r.deep_view() == payload_of(*self, decckm_mode),
    {
        match self {
            TerminalInput::Ascii(c) => TerminalInputPayload::Single(*c),
            TerminalInput::Ctrl(c) => TerminalInputPayload::Single(char_to_ctrl_code(*c)),
            TerminalInput::Enter => TerminalInputPayload::Single(0x0a),
            TerminalInput::Backspace => TerminalInputPayload::Single(0x7f),
            TerminalInput::ArrowRight => cursor_key_bytes(decckm_mode, 0x43),
            TerminalInput::ArrowLeft => cursor_key_bytes(decckm_mode, 0x44),
            TerminalInput::ArrowUp => cursor_key_bytes(decckm_mode, 0x41),
            TerminalInput::ArrowDown => cursor_key_bytes(decckm_mode, 0x42),
            TerminalInput::Home => cursor_key_bytes(decckm_mode, 0x48),
            TerminalInput::End => cursor_key_bytes(decckm_mode, 0x46),
            TerminalInput::Delete => tilde_key_bytes(0x33),
            TerminalInput::Insert => tilde_key_bytes(0x32),
            TerminalInput::PageUp => tilde_key_bytes(0x35),
            TerminalInput::PageDown => tilde_key_bytes(0x36),
        }
    }
}

/// The tags of the scrollback: those that start before `split`, cut off at
/// it.
pub open spec fn scrollback_tags(tags: Seq<TagModel>, split: int) -> Seq<TagModel>
    decreases tags.len(),
{
    if tags.len() == 0 {
        tags
    } else {
        let t = tags.last();
        scrollback_tags(tags.drop_last(), split) + if t.start < split {
            seq![TagModel { end: if t.end < split { t.end } else { split as usize }, ..t }]
        } else {
            Seq::empty()
        }
    }
}

/// The tags of the screen: those that end after `split`, moved back by it
/// (an end of `usize::MAX` stays).
pub open spec fn visible_tags(tags: Seq<TagModel>, split: int) -> Seq<TagModel>
    decreases tags.len(),
{
    if tags.len() == 0 {
        tags
    } else {
        let t = tags.last();
        visible_tags(tags.drop_last(), split) + if t.end > split {
            seq![
                TagModel {
                    start: if t.start > split { (t.start - split) as usize } else { 0 },
                    end: if t.end != usize::MAX { (t.end - split) as usize } else { t.end },
                    ..t
                },
            ]
        } else {
            Seq::empty()
        }
    }
}

/// The tags of the scrollback start and end within it.
pub proof fn lemma_scrollback_tags_stay_in_scrollback(tags: Seq<TagModel>, split: int)
    requires
        0 <= split <= usize::MAX,
    ensures
        forall|i: int|
            0 <= i < scrollback_tags(tags, split).len() ==> (#[trigger] scrollback_tags(
                tags,
                split,
            )[i]).end <= split && scrollback_tags(tags, split)[i].start < split,
    decreases tags.len(),
{
    if tags.len() > 0 {
        let p = tags.drop_last();
        lemma_scrollback_tags_stay_in_scrollback(p, split);
        let sp = scrollback_tags(p, split);
        let sc = scrollback_tags(tags, split);
        assert forall|i: int| 0 <= i < sc.len() implies (#[trigger] sc[i]).end <= split && sc[i].start
            < split by {
            if i < sp.len() {
                assert(sc[i] == sp[i]);
            }
        }
    }
}

/// Splits format tags between the scrollback and the screen, which starts
/// at buffer position `scrollback_split`.
pub fn split_format_data_for_scrollback(tags: Vec<FormatTag>, scrollback_split: usize) -> (r:
    TerminalSections<Vec<FormatTag>>)
    ensures
        r.scrollback.deep_view() == scrollback_tags(tags.deep_view(), scrollback_split as int),
        r.visible.deep_view() == visible_tags(tags.deep_view(), scrollback_split as int),
{
    let ghost s = tags.deep_view();
    let mut scrollback: Vec<FormatTag> = Vec::new();
    let mut visible: Vec<FormatTag> = Vec::new();
    let mut i: usize = 0;
    proof {
        assert(s.take(0) =~= Seq::<TagModel>::empty());
        assert(scrollback.deep_view() =~= Seq::<TagModel>::empty());
        assert(visible.deep_view() =~= Seq::<TagModel>::empty());
    }
    while i < tags.len()
        invariant
            i <= tags@.len(),
            s == tags.deep_view(),
            scrollback.deep_view() == scrollback_tags(s.take(i as int), scrollback_split as int),
            visible.deep_view() == visible_tags(s.take(i as int), scrollback_split as int),
        decreases tags@.len() - i,
    {
        assert(s.take(i + 1).drop_last() =~= s.take(i as int));
        assert(tags.deep_view()[i as int] == s[i as int]);
        let ghost sb0 = scrollback.deep_view();
        let ghost v0 = visible.deep_view();
        if tags[i].start < scrollback_split {
            let mut t = copy_tag(&tags[i]);
            if t.end > scrollback_split {
                t.end = scrollback_split;
            }
            let ghost pre = scrollback@;
            scrollback.push(t);
            proof {
                lemma_push_deep_view(pre, scrollback@, t);
            }
        }
        assert(scrollback.deep_view() =~= scrollback_tags(s.take(i + 1), scrollback_split as int));
        if tags[i].end > scrollback_split {
            let mut t = copy_tag(&tags[i]);
            t.start = if t.start > scrollback_split {
                t.start - scrollback_split
            } else {
                0
            };
            if t.end != usize::MAX {
                t.end = t.end - scrollback_split;
            }
            let ghost pre = visible@;
            visible.push(t);
            proof {
                lemma_push_deep_view(pre, visible@, t);
            }
        }
        assert(visible.deep_view() =~= visible_tags(s.take(i + 1), scrollback_split as int));
        i += 1;
    }
    assert(s.take(s.len() as int) =~= s);
    TerminalSections { scrollback, visible }
}

} // verus!
