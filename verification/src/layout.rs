use std::ops::Range;
use vstd::prelude::*;
use vstd::utf8::{decode_utf8, valid_utf8};

use crate::colors::TerminalColor;
use crate::fonts::{family_for, has_decoration, FontDecorations, TerminalFont};
use crate::buffer::TerminalSections;
use crate::format_tracker::{copy_tag, FormatTag, TagModel};
use crate::vec_lemmas::lemma_set_deep_view;
use crate::term_char::{CharModel, TChar};
use crate::utf8::{string_from_utf8, utf8_is_valid};

verus! {

/// Why screen text could not be laid out.
#[derive(Debug, Clone, Copy, PartialEq, Eq, Structural)]
pub enum LayoutError {
    /// The bytes of the text, or of a tagged part of it, are not UTF-8.
    InvalidUtf8,
}

/// The bytes that a character stands for.
pub open spec fn char_bytes(c: CharModel) -> Seq<u8> {
    match c {
        CharModel::NewLine => seq![10u8],
        CharModel::Space => seq![32u8],
        CharModel::Ascii(b) => seq![b],
        CharModel::Utf8(v) => v,
    }
}

/// The bytes of a run of characters.
pub open spec fn chars_bytes(s: Seq<CharModel>) -> Seq<u8>
    decreases s.len(),
{
    if s.len() == 0 {
        Seq::empty()
    } else {
        chars_bytes(s.drop_last()) + char_bytes(s.last())
    }
}

/// Where the bytes of character `i` start.
pub open spec fn char_offset(s: Seq<CharModel>, i: int) -> int {
    chars_bytes(s.take(i)).len() as int
}

/// Where a tag starts among the bytes of the text: at the bytes of its
/// first character, or at the last character when it starts past the end.
pub open spec fn shifted_start(s: Seq<CharModel>, t: TagModel) -> int {
    if t.start < s.len() {
        char_offset(s, t.start as int)
    } else {
        char_offset(s, s.len() - 1)
    }
}

/// Where a tag ends among the bytes of the text: an empty tag stays empty,
/// and a tag that reaches the end of the text reaches the end of its
/// bytes.
pub open spec fn shifted_end(s: Seq<CharModel>, t: TagModel) -> int {
    if t.start == t.end {
        shifted_start(s, t)
    } else if t.end == usize::MAX || t.end >= s.len() {
        chars_bytes(s).len() as int
    } else {
        char_offset(s, t.end as int)
    }
}

/// A tag moved from character positions to byte positions.
pub open spec fn shifted_tag(s: Seq<CharModel>, t: TagModel) -> TagModel {
    TagModel { start: shifted_start(s, t) as usize, end: shifted_end(s, t) as usize, ..t }
}

proof fn lemma_chars_bytes_take(s: Seq<CharModel>, i: int)
    requires
        0 <= i < s.len(),
    ensures
        chars_bytes(s.take(i + 1)) == chars_bytes(s.take(i)) + char_bytes(s[i]),
{
    assert(s.take(i + 1).drop_last() =~= s.take(i));
}

proof fn lemma_offsets_monotone(s: Seq<CharModel>, i: int, j: int)
    requires
        0 <= i <= j <= s.len(),
    ensures
        char_offset(s, i) <= char_offset(s, j),
    decreases j - i,
{
    if i < j {
        lemma_offsets_monotone(s, i, j - 1);
        lemma_chars_bytes_take(s, j - 1);
    }
}

/// The bytes of the characters, and where each character's bytes start.
fn text_bytes(data: &[TChar]) -> (r: (Vec<u8>, Vec<usize>))
    ensures
        r.0@ == chars_bytes(data.deep_view()),
        r.1@.len() == data@.len(),
        forall|i: int| 0 <= i < data@.len() ==> #[trigger] r.1@[i] == char_offset(data.deep_view(), i),
{
    let ghost s = data.deep_view();
    let mut bytes: Vec<u8> = Vec::new();
    let mut offset: Vec<usize> = Vec::new();
    let mut i: usize = 0;
    proof {
        assert(s.take(0) =~= Seq::<CharModel>::empty());
    }
    while i < data.len()
        invariant
            i <= data@.len(),
            s == data.deep_view(),
            s.len() == data@.len(),
            bytes@ == chars_bytes(s.take(i as int)),
            offset@.len() == i,
            forall|k: int| 0 <= k < i ==> #[trigger] offset@[k] == char_offset(s, k),
        decreases data@.len() - i,
    {
        proof {
            lemma_chars_bytes_take(s, i as int);
        }
        offset.push(bytes.len());
        assert(s[i as int] == data[i as int].deep_view());
        match &data[i] {
            TChar::NewLine => bytes.push(10),
            TChar::Space => bytes.push(32),
            TChar::Ascii(c) => bytes.push(*c),
            TChar::Utf8(all) => {
                let mut k: usize = 0;
                let ghost before = bytes@;
                while k < all.len()
                    invariant
                        k <= all@.len(),
                        bytes@ == before + all@.take(k as int),
                    decreases all@.len() - k,
                {
                    bytes.push(all[k]);
                    k += 1;
                    assert(bytes@ =~= before + all@.take(k as int));
                }
                assert(all@.take(all@.len() as int) =~= all@);
            },
        }
        assert(bytes@ =~= chars_bytes(s.take(i + 1)));
        i += 1;
    }
    assert(s.take(s.len() as int) =~= s);
    (bytes, offset)
}

/// Turns screen text into one UTF-8 string, and its format tags from
/// character positions into byte positions (see [`shifted_tag`]). Empty
/// text gives an empty string and no tags.
pub fn create_terminal_output_layout_job(data: &[TChar], format_data: &[FormatTag]) -> (r: Result<
    (String, Vec<FormatTag>),
    LayoutError,
>)
    requires
        data@.len() > 0 && valid_utf8(chars_bytes(data.deep_view())) ==> forall|i: int|
            0 <= i < format_data@.len() ==> shifted_start(data.deep_view(), #[trigger] format_data@[i].deep_view())
                <= shifted_end(data.deep_view(), format_data@[i].deep_view()),
    ensures
        data@.len() == 0 ==> (r matches Ok((s, tags)) && s@.len() == 0 && tags@.len() == 0),
        data@.len() > 0 ==> (r is Ok <==> valid_utf8(chars_bytes(data.deep_view()))),
        data@.len() > 0 ==> (r matches Ok((s, tags)) ==> {
            &&& s@ == decode_utf8(chars_bytes(data.deep_view()))
            &&& tags.deep_view() == Seq::new(
                format_data@.len(),
                |i: int| shifted_tag(data.deep_view(), format_data@[i].deep_view()),
            )
        }),
        r matches Err(e) ==> e == LayoutError::InvalidUtf8,
{
    if data.len() == 0 {
        return Ok((String::new(), Vec::new()));
    }
    let ghost s = data.deep_view();
    let (bytes, offset) = text_bytes(data);
    let total = bytes.len();
    let text = match string_from_utf8(bytes) {
        Some(text) => text,
        None => {
            return Err(LayoutError::InvalidUtf8);
        },
    };
    let mut shifted: Vec<FormatTag> = Vec::new();
    let mut i: usize = 0;
    proof {
        assert(s.take(s.len() as int) =~= s);
        lemma_offsets_monotone(s, 0, s.len() as int);
    }
    while i < format_data.len()
        invariant
            i <= format_data@.len(),
            s == data.deep_view(),
            s.len() == data@.len(),
            s.len() > 0,
            offset@.len() == s.len(),
            forall|k: int| 0 <= k < s.len() ==> #[trigger] offset@[k] == char_offset(s, k),
            total == chars_bytes(s).len(),
            char_offset(s, s.len() as int) == total,
            shifted.deep_view() == Seq::new(i as nat, |k: int| shifted_tag(s, format_data@[k].deep_view())),
        decreases format_data@.len() - i,
    {
        let tag = &format_data[i];
        let ghost t = tag.deep_view();
        proof {
            lemma_offsets_monotone(s, 0, s.len() as int);
            if tag.start < s.len() {
                lemma_offsets_monotone(s, tag.start as int, s.len() as int);
                if tag.start <= tag.end && tag.end < s.len() {
                    lemma_offsets_monotone(s, tag.start as int, tag.end as int);
                }
            } else {
                lemma_offsets_monotone(s, s.len() - 1, s.len() as int);
            }
        }
        let start = if tag.start < offset.len() {
            offset[tag.start]
        } else {
            offset[offset.len() - 1]
        };
        let end = if tag.start == tag.end {
            start
        } else if tag.end == usize::MAX || tag.end >= offset.len() {
            total
        } else {
            offset[tag.end]
        };
        let mut moved = copy_tag(tag);
        moved.start = start;
        moved.end = end;
        let ghost before = shifted.deep_view();
        shifted.push(moved);
        assert(shifted.deep_view() =~= before.push(shifted_tag(s, t)));
        assert(shifted.deep_view() =~= Seq::new(
            (i + 1) as nat,
            |k: int| shifted_tag(s, format_data@[k].deep_view()),
        ));
        i += 1;
    }
    Ok((text, shifted))
}

/// Whether every tag that starts within the buffer covers UTF-8 bytes.
pub open spec fn tags_cover_utf8(buffer: Seq<u8>, tags: Seq<TagModel>) -> bool {
    forall|i: int|
        0 <= i < tags.len() && #[trigger] tags[i].start < buffer.len() ==> valid_utf8(
            buffer.subrange(tags[i].start as int, tags[i].end as int),
        )
}

/// Copies the bytes `a..e` of `buf`.
fn copy_range(buf: &[u8], a: usize, e: usize) -> (r: Vec<u8>)
    requires
        a <= e <= buf@.len(),
    ensures
        r@ == buf@.subrange(a as int, e as int),
{
    let mut r: Vec<u8> = Vec::new();
    let mut k = a;
    while k < e
        invariant
            a <= k <= e,
            e <= buf@.len(),
            r@ == buf@.subrange(a as int, k as int),
        decreases e - k,
    {
        r.push(buf[k]);
        k += 1;
        assert(r@ =~= buf@.subrange(a as int, k as int));
    }
    r
}

/// Checks that the tags fit the text: every tag that starts within the
/// buffer must cover UTF-8 bytes; tags that start past its end are skipped.
pub fn validate_tags_to_buffer(buffer: &[u8], tags: &[FormatTag]) -> (r: Result<(), LayoutError>)
    requires
        forall|i: int|
            0 <= i < tags@.len() && #[trigger] tags@[i].start < buffer@.len() ==> tags@[i].start
                <= tags@[i].end <= buffer@.len(),
    ensures
        r is Ok <==> tags_cover_utf8(buffer@, tags.deep_view()),
        r matches Err(e) ==> e == LayoutError::InvalidUtf8,
{
    let ghost ts = tags.deep_view();
    let mut i: usize = 0;
    while i < tags.len()
        invariant
            i <= tags@.len(),
            ts == tags.deep_view(),
            forall|k: int|
                0 <= k < tags@.len() && #[trigger] tags@[k].start < buffer@.len() ==> tags@[k].start
                    <= tags@[k].end <= buffer@.len(),
            forall|k: int|
                0 <= k < i && #[trigger] ts[k].start < buffer@.len() ==> valid_utf8(
                    buffer@.subrange(ts[k].start as int, ts[k].end as int),
                ),
        decreases tags@.len() - i,
    {
        let tag = &tags[i];
        assert(ts[i as int] == tag.deep_view());
        if tag.start < buffer.len() {
            let part = copy_range(buffer, tag.start, tag.end);
            if !utf8_is_valid(part.as_slice()) {
                assert(ts[i as int].start < buffer@.len() && !valid_utf8(
                    buffer@.subrange(ts[i as int].start as int, ts[i as int].end as int),
                ));
                return Err(LayoutError::InvalidUtf8);
            }
        }
        i += 1;
    }
    Ok(())
}

/// How one tagged part of the text is drawn.
#[derive(Debug)]
pub struct TagSection {
    /// The bytes of the text that the part covers.
    pub byte_range: Range<usize>,
    /// The font face.
    pub family: String,
    pub color: TerminalColor,
    pub background_color: TerminalColor,
    /// The color of the underline, when the part is underlined.
    pub underline_color: Option<TerminalColor>,
    pub strikethrough: bool,
    /// Whether the colors are drawn faint.
    pub faint: bool,
}

/// The bytes that a tag covers in text of `len` bytes: a tag to the end
/// reaches the end of the text, a tag that starts at or past the end
/// covers nothing, and no tag reaches past the end.
pub open spec fn section_range(t: TagModel, len: int) -> Option<(int, int)> {
    let end: int = if t.end == usize::MAX {
        len
    } else {
        t.end as int
    };
    if t.start >= len {
        None
    } else if end > len {
        Some((t.start as int, len))
    } else {
        Some((t.start as int, end))
    }
}

/// How the tags are drawn, in order: one section for each tag that covers
/// part of the text (see [`section_range`]).
pub open spec fn sections_of(tags: Seq<TagModel>, len: int) -> Seq<(int, int)>
    decreases tags.len(),
{
    if tags.len() == 0 {
        Seq::empty()
    } else {
        sections_of(tags.drop_last(), len) + match section_range(tags.last(), len) {
            Some(r) => seq![r],
            None => Seq::empty(),
        }
    }
}

/// Whether a section draws its tag: the face from italics and weight, the
/// tag's colors, an underline in the underline color when the tag is
/// underlined, and faint colors when it is faint.
pub open spec fn section_draws(sec: TagSection, t: TagModel) -> bool {
    &&& sec.family@ == family_for(t.font_decorations.contains(FontDecorations::Italic), t.font_weight)
    &&& sec.color == t.color
    &&& sec.background_color == t.background_color
    &&& sec.underline_color == if t.font_decorations.contains(FontDecorations::Underline) {
        Some(t.underline_color)
    } else {
        None
    }
    &&& sec.strikethrough == t.font_decorations.contains(FontDecorations::Strikethrough)
    &&& sec.faint == t.font_decorations.contains(FontDecorations::Faint)
}

/// The index of the tag that the `k`-th section draws.
pub open spec fn section_tag(tags: Seq<TagModel>, len: int, k: int) -> int
    decreases tags.len(),
{
    if tags.len() == 0 {
        0
    } else if k < sections_of(tags.drop_last(), len).len() {
        section_tag(tags.drop_last(), len, k)
    } else {
        tags.len() - 1
    }
}

/// The sections that tagged text of `data_len` bytes is drawn in (see
/// [`sections_of`] and [`section_draws`]).
pub fn process_tags(adjusted_format_data: &Vec<FormatTag>, data_len: usize) -> (r: Vec<TagSection>)
    ensures
        r@.len() == sections_of(adjusted_format_data.deep_view(), data_len as int).len(),
        forall|k: int|
            0 <= k < r@.len() ==> {
                let i = section_tag(adjusted_format_data.deep_view(), data_len as int, k);
                &&& 0 <= i < adjusted_format_data@.len()
                &&& section_range(adjusted_format_data.deep_view()[i], data_len as int) == Some(
                    ((#[trigger] r@[k]).byte_range.start as int, r@[k].byte_range.end as int),
                )
                &&& (r@[k].byte_range.start as int, r@[k].byte_range.end as int) == sections_of(
                    adjusted_format_data.deep_view(),
                    data_len as int,
                )[k]
                &&& section_draws(r@[k], adjusted_format_data.deep_view()[i])
            },
{
    let ghost ts = adjusted_format_data.deep_view();
    let fonts = TerminalFont::new();
    let mut out: Vec<TagSection> = Vec::new();
    let mut i: usize = 0;
    proof {
        assert(ts.take(0) =~= Seq::<TagModel>::empty());
    }
    while i < adjusted_format_data.len()
        invariant
            i <= adjusted_format_data@.len(),
            ts == adjusted_format_data.deep_view(),
            fonts.wf(),
            out@.len() == sections_of(ts.take(i as int), data_len as int).len(),
            forall|k: int|
                0 <= k < out@.len() ==> {
                    let j = section_tag(ts.take(i as int), data_len as int, k);
                    &&& 0 <= j < i
                    &&& section_range(ts[j], data_len as int) == Some(
                        ((#[trigger] out@[k]).byte_range.start as int, out@[k].byte_range.end as int),
                    )
                    &&& (out@[k].byte_range.start as int, out@[k].byte_range.end as int)
                        == sections_of(ts.take(i as int), data_len as int)[k]
                    &&& section_draws(out@[k], ts[j])
                },
        decreases adjusted_format_data@.len() - i,
    {
        let tag = &adjusted_format_data[i];
        let ghost t = tag.deep_view();
        let ghost pre = ts.take(i as int);
        let ghost cur = ts.take(i + 1);
        assert(cur.drop_last() =~= pre);
        assert(cur.last() == t);
        assert(ts[i as int] == t);
        assert forall|j: int| 0 <= j < i implies cur[j] == ts[j] && pre[j] == ts[j] by {}
        let ghost old_out = out@;
        let mut end = tag.end;
        if end == usize::MAX {
            end = data_len;
        }
        if tag.start < data_len {
            if end > data_len {
                end = data_len;
            }
            let decs = tag.font_decorations.as_slice();
            let family = fonts.get_family(decs, &tag.font_weight);
            let underline_color = if has_decoration(decs, FontDecorations::Underline) {
                Some(tag.underline_color)
            } else {
                None
            };
            let section = TagSection {
                byte_range: Range { start: tag.start, end },
                family,
                color: tag.color,
                background_color: tag.background_color,
                underline_color,
                strikethrough: has_decoration(decs, FontDecorations::Strikethrough),
                faint: has_decoration(decs, FontDecorations::Faint),
            };
            out.push(section);
            assert(sections_of(cur, data_len as int) =~= sections_of(pre, data_len as int) + seq![
                (tag.start as int, end as int),
            ]);
            assert forall|k: int| 0 <= k < out@.len() implies {
                let j = section_tag(cur, data_len as int, k);
                &&& 0 <= j < i + 1
                &&& section_range(ts[j], data_len as int) == Some(
                    ((#[trigger] out@[k]).byte_range.start as int, out@[k].byte_range.end as int),
                )
                &&& (out@[k].byte_range.start as int, out@[k].byte_range.end as int)
                    == sections_of(cur, data_len as int)[k]
                &&& section_draws(out@[k], ts[j])
            } by {
                if k < old_out.len() {
                    assert(out@[k] == old_out[k]);
                }
            }
        } else {
            assert(sections_of(cur, data_len as int) =~= sections_of(pre, data_len as int));
            assert forall|k: int| 0 <= k < out@.len() implies section_tag(cur, data_len as int, k)
                == section_tag(pre, data_len as int, k) by {}
        }
        i += 1;
    }
    assert(ts.take(ts.len() as int) =~= ts);
    out
}

/// Whether characters end with a line break.
pub open spec fn ends_with_newline(s: Seq<CharModel>) -> bool {
    s.len() > 0 && s.last() == CharModel::NewLine
}

/// The characters without the line break that ends them, if one does.
pub open spec fn without_final_newline(s: Seq<CharModel>) -> Seq<CharModel> {
    if ends_with_newline(s) {
        s.drop_last()
    } else {
        s
    }
}

/// The tags with the last one ending no later than `len`.
pub open spec fn clamp_last_end(tags: Seq<TagModel>, len: int) -> Seq<TagModel> {
    if tags.len() == 0 {
        tags
    } else {
        let t = tags.last();
        tags.update(
            tags.len() - 1,
            TagModel {
                end: if t.end <= len {
                    t.end
                } else {
                    len as usize
                },
                ..t
            },
        )
    }
}

/// The scrollback and the screen as they are drawn one after the other: a
/// line break that ends either is dropped, so that no blank line shows
/// between them, and when the scrollback loses its line break, its last tag
/// ends no later than the scrollback now does.
pub fn sections_for_display(
    data: TerminalSections<Vec<TChar>>,
    tags: TerminalSections<Vec<FormatTag>>,
) -> (r: (TerminalSections<Vec<TChar>>, TerminalSections<Vec<FormatTag>>))
    ensures
        r.0.scrollback.deep_view() == without_final_newline(data.scrollback.deep_view()),
        r.0.visible.deep_view() == without_final_newline(data.visible.deep_view()),
        r.1.scrollback.deep_view() == if ends_with_newline(data.scrollback.deep_view()) {
            clamp_last_end(tags.scrollback.deep_view(), data.scrollback@.len() - 1)
        } else {
            tags.scrollback.deep_view()
        },
        r.1.visible.deep_view() == tags.visible.deep_view(),
{
    let mut scrollback = data.scrollback;
    let mut visible = data.visible;
    let mut scrollback_tags = tags.scrollback;
    let ghost sb0 = scrollback.deep_view();
    let ghost st0 = scrollback_tags.deep_view();
    let n = scrollback.len();
    if n > 0 && scrollback[n - 1].is_newline() {
        scrollback.pop();
        assert(scrollback.deep_view() =~= sb0.drop_last());
        let m = scrollback_tags.len();
        if m > 0 {
            let mut last = copy_tag(&scrollback_tags[m - 1]);
            if last.end > n - 1 {
                last.end = n - 1;
            }
            let ghost pre = scrollback_tags@;
            scrollback_tags.set(m - 1, last);
            proof {
                lemma_set_deep_view(pre, scrollback_tags@, m - 1, last);
            }
            assert(scrollback_tags.deep_view() =~= clamp_last_end(st0, n - 1));
        }
    }
    let ghost vi0 = visible.deep_view();
    let k = visible.len();
    if k > 0 && visible[k - 1].is_newline() {
        visible.pop();
        assert(visible.deep_view() =~= vi0.drop_last());
    }
    (
        TerminalSections { scrollback, visible },
        TerminalSections { scrollback: scrollback_tags, visible: tags.visible },
    )
}

} // verus!
