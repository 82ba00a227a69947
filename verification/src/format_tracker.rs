use std::ops::Range;
use vstd::prelude::*;

use crate::colors::TerminalColor;
use crate::cursor::{CursorModel, CursorState};
use crate::fonts::{FontDecorations, FontWeight};
use crate::mode::Decawm;
use crate::vec_lemmas::{
    deep_seq, lemma_listed_insert, lemma_listed_push, lemma_listed_skip, lemma_push_deep_view,
    lemma_set_deep_view, lemma_without_deep, lemma_without_insert, lemma_without_no_position,
    lemma_without_positions_agree, listed, strictly_increasing, without_positions,
};

verus! {

/// The format of a run of buffer positions `start..end`; an `end` of
/// `usize::MAX` means "to the end of the buffer".
#[derive(Clone, Debug, PartialEq, Eq)]
pub struct FormatTag {
    pub start: usize,
    pub end: usize,
    pub color: TerminalColor,
    pub background_color: TerminalColor,
    pub underline_color: TerminalColor,
    pub font_weight: FontWeight,
    pub font_decorations: Vec<FontDecorations>,
    pub line_wrap_mode: Decawm,
}

/// The mathematical value of a [`FormatTag`].
pub ghost struct TagModel {
    pub start: usize,
    pub end: usize,
    pub color: TerminalColor,
    pub background_color: TerminalColor,
    pub underline_color: TerminalColor,
    pub font_weight: FontWeight,
    pub font_decorations: Seq<FontDecorations>,
    pub line_wrap_mode: Decawm,
}

impl DeepView for FormatTag {
    type V = TagModel;

    open spec fn deep_view(&self) -> TagModel {
        TagModel {
            start: self.start,
            end: self.end,
            color: self.color,
            background_color: self.background_color,
            underline_color: self.underline_color,
            font_weight: self.font_weight,
            font_decorations: self.font_decorations@,
            line_wrap_mode: self.line_wrap_mode,
        }
    }
}

/// A copy of a tag.
pub fn copy_tag(t: &FormatTag) -> (r: FormatTag)
    ensures
        r.deep_view() == t.deep_view(),
{
    let decorations = t.font_decorations.clone();
    assert(decorations@ =~= t.font_decorations@);
    FormatTag {
        start: t.start,
        end: t.end,
        color: t.color,
        background_color: t.background_color,
        underline_color: t.underline_color,
        font_weight: t.font_weight,
        font_decorations: decorations,
        line_wrap_mode: t.line_wrap_mode,
    }
}

/// The positions of a tag as a pair.
pub open spec fn span(t: TagModel) -> (int, int) {
    (t.start as int, t.end as int)
}

/// Whether two ranges share a position.
pub open spec fn spans_overlap(a: (int, int), b: (int, int)) -> bool {
    !(a.1 <= b.0 || a.0 >= b.1)
}

/// Whether `a` covers all of `b`.
pub open spec fn span_contains(a: (int, int), b: (int, int)) -> bool {
    a.0 <= b.0 && a.1 >= b.1
}

/// Whether `a` starts inside `b` and reaches past its end.
pub open spec fn span_starts_overlapping(a: (int, int), b: (int, int)) -> bool {
    a.0 > b.0 && a.1 > b.1
}

/// Whether two ranges share a position.
pub fn ranges_overlap(a: Range<usize>, b: Range<usize>) -> (r: bool)
    ensures
        r == spans_overlap((a.start as int, a.end as int), (b.start as int, b.end as int)),
{
    !(a.end <= b.start || a.start >= b.end)
}

/// Whether `a` covers all of `b`.
fn range_fully_conatins(a: &Range<usize>, b: &Range<usize>) -> (r: bool)
    ensures
        r == span_contains((a.start as int, a.end as int), (b.start as int, b.end as int)),
{
    a.start <= b.start && a.end >= b.end
}

/// Whether `a` starts inside `b` and reaches past its end.
fn range_starts_overlapping(a: &Range<usize>, b: &Range<usize>) -> (r: bool)
    ensures
        r == span_starts_overlapping((a.start as int, a.end as int), (b.start as int, b.end as int)),
{
    a.start > b.start && a.end > b.end
}

/// Whether `a` starts before `b` and ends inside it.
fn range_ends_overlapping(a: &Range<usize>, b: &Range<usize>) -> (r: bool)
    ensures
        r == span_starts_overlapping((b.start as int, b.end as int), (a.start as int, a.end as int)),
{
    range_starts_overlapping(b, a)
}

/// What writing over `r` leaves of a tag `t` that overlaps it: the part of
/// `t` before `r` (if any), and the part after `r` when `r` lies strictly
/// inside `t`.
pub open spec fn adjust_tag(t: TagModel, r: (int, int)) -> (Option<TagModel>, Option<TagModel>) {
    let e = span(t);
    if span_contains(r, e) {
        (None, None)
    } else if span_contains(e, r) {
        let after = if r.1 != t.end {
            Some(TagModel { start: r.1 as usize, ..t })
        } else {
            None
        };
        let before = if t.start == r.0 {
            None
        } else {
            Some(TagModel { end: r.0 as usize, ..t })
        };
        (before, after)
    } else if span_starts_overlapping(r, e) {
        if t.start == r.0 {
            (None, None)
        } else {
            (Some(TagModel { end: r.0 as usize, ..t }), None)
        }
    } else {
        if r.1 == t.end {
            (None, None)
        } else {
            (Some(TagModel { start: r.1 as usize, ..t }), None)
        }
    }
}

/// The empty sequence or the one element of `o`.
pub open spec fn opt_seq<T>(o: Option<T>) -> Seq<T> {
    match o {
        Some(x) => seq![x],
        None => Seq::empty(),
    }
}

/// Writing over `r`: the tags kept (adjusted where they overlap `r`), and
/// the parts split off after `r`, each in order.
pub open spec fn adjust_all(tags: Seq<TagModel>, r: (int, int)) -> (Seq<TagModel>, Seq<TagModel>)
    decreases tags.len(),
{
    if tags.len() == 0 {
        (Seq::empty(), Seq::empty())
    } else {
        let prev = adjust_all(tags.drop_last(), r);
        let t = tags.last();
        if spans_overlap(span(t), r) {
            let a = adjust_tag(t, r);
            (prev.0 + opt_seq(a.0), prev.1 + opt_seq(a.1))
        } else {
            (prev.0.push(t), prev.1)
        }
    }
}

/// `s` with `x` placed after every element that starts no later than it,
/// as a stable insertion sort places it.
pub open spec fn insert_by_start(s: Seq<TagModel>, x: TagModel) -> Seq<TagModel>
    decreases s.len(),
{
    if s.len() == 0 || s.last().start <= x.start {
        s.push(x)
    } else {
        insert_by_start(s.drop_last(), x).push(s.last())
    }
}

/// The tags sorted by start, tags with equal starts kept in their order (a
/// stable sort).
pub open spec fn sort_by_start(s: Seq<TagModel>) -> Seq<TagModel>
    decreases s.len(),
{
    if s.len() == 0 {
        s
    } else {
        insert_by_start(sort_by_start(s.drop_last()), s.last())
    }
}

/// The tag that writing over `r` with the attributes of `cursor` adds.
pub open spec fn cursor_tag(cursor: CursorModel, r: (int, int)) -> TagModel {
    TagModel {
        start: r.0 as usize,
        end: r.1 as usize,
        color: cursor.color,
        background_color: cursor.background_color,
        underline_color: cursor.underline_color,
        font_weight: cursor.font_weight,
        font_decorations: cursor.font_decorations,
        line_wrap_mode: cursor.line_wrap_mode,
    }
}

/// The tags after writing over `r` with the attributes of `cursor`.
pub open spec fn push_range_result(tags: Seq<TagModel>, cursor: CursorModel, r: (int, int)) -> Seq<TagModel> {
    let a = adjust_all(tags, r);
    sort_by_start((a.0 + a.1).push(cursor_tag(cursor, r)))
}

/// A tag after `len` positions are inserted at `at`: tags that start after
/// `at` move, a tag that covers `at` grows. Ends of `usize::MAX` stay.
pub open spec fn adjust_for_insert(t: TagModel, at: int, len: int) -> TagModel {
    if t.end <= at {
        t
    } else if t.start > at {
        TagModel {
            start: (t.start + len) as usize,
            end: if t.end != usize::MAX {
                (t.end + len) as usize
            } else {
                t.end
            },
            ..t
        }
    } else if t.end != usize::MAX {
        TagModel { end: (t.end + len) as usize, ..t }
    } else {
        t
    }
}

/// Whether moving `t` by `len` keeps its positions within `usize`.
pub open spec fn shift_fits(t: TagModel, len: int) -> bool {
    &&& t.start + len <= usize::MAX
    &&& t.end != usize::MAX ==> t.end + len <= usize::MAX
}

/// A tag after the positions of `r` are deleted: `None` when the tag lay
/// within `r`; otherwise what is left of it, moved back past `r`. Ends of
/// `usize::MAX` stay.
pub open spec fn delete_from_tag(t: TagModel, r: (int, int)) -> Option<TagModel> {
    let e = span(t);
    let del = r.1 - r.0;
    let shrunk_end = if t.end != usize::MAX {
        (t.end - del) as usize
    } else {
        t.end
    };
    if t.end <= r.0 {
        Some(t)
    } else if spans_overlap(r, e) {
        if span_contains(r, e) {
            None
        } else if span_starts_overlapping(r, e) {
            Some(
                if t.end != usize::MAX {
                    TagModel { end: r.0 as usize, ..t }
                } else {
                    t
                },
            )
        } else if span_starts_overlapping(e, r) {
            Some(TagModel { start: r.0 as usize, end: shrunk_end, ..t })
        } else {
            Some(TagModel { end: shrunk_end, ..t })
        }
    } else {
        Some(TagModel { start: (t.start - del) as usize, end: shrunk_end, ..t })
    }
}

/// The tags after the positions of `r` are deleted.
pub open spec fn delete_range_result(tags: Seq<TagModel>, r: (int, int)) -> Seq<TagModel>
    decreases tags.len(),
{
    if tags.len() == 0 {
        tags
    } else {
        delete_range_result(tags.drop_last(), r) + opt_seq(delete_from_tag(tags.last(), r))
    }
}

/// Whether every tag starts no later than it ends.
pub open spec fn tags_wf(tags: Seq<TagModel>) -> bool {
    forall|i: int| 0 <= i < tags.len() ==> (#[trigger] tags[i]).start <= tags[i].end
}

/// Which format applies to which positions of a terminal's buffer.
pub struct FormatTracker {
    color_info: Vec<FormatTag>,
}

impl View for FormatTracker {
    type V = Seq<TagModel>;

    closed spec fn view(&self) -> Seq<TagModel> {
        self.color_info.deep_view()
    }
}

/// The one tag of a new tracker: the default format over everything.
pub open spec fn default_tag() -> TagModel {
    TagModel {
        start: 0,
        end: usize::MAX,
        color: TerminalColor::Default,
        background_color: TerminalColor::Black,
        underline_color: TerminalColor::DefaultUnderlineColor,
        font_weight: FontWeight::Normal,
        font_decorations: Seq::empty(),
        line_wrap_mode: Decawm::NoAutoWrap,
    }
}

/// What writing over a range does to one tag that overlaps it.
pub struct ColorRangeAdjustment {
    /// The tag is left empty and goes.
    pub should_delete: bool,
    /// The part of the tag after the range, when the range split it.
    pub to_insert: Option<FormatTag>,
}

/// Adjusts a tag that overlaps `range` as [`adjust_tag`] says: the tag
/// becomes its part before the range, and the part after comes back to be
/// inserted.
pub fn adjust_existing_format_range(existing_elem: &mut FormatTag, range: &Range<usize>) -> (r:
    ColorRangeAdjustment)
    ensures
        r.should_delete == adjust_tag(old(existing_elem).deep_view(), (range.start as int, range.end as int)).0 is None,
        !r.should_delete ==> Some(final(existing_elem).deep_view()) == adjust_tag(
            old(existing_elem).deep_view(),
            (range.start as int, range.end as int),
        ).0,
        r.to_insert.deep_view() == adjust_tag(
            old(existing_elem).deep_view(),
            (range.start as int, range.end as int),
        ).1,
{
    let mut ret = ColorRangeAdjustment { should_delete: false, to_insert: None };
    let es = existing_elem.start;
    let ee = existing_elem.end;
    let existing_range = Range { start: es, end: ee };
    if range_fully_conatins(range, &existing_range) {
        ret.should_delete = true;
    } else if range_fully_conatins(&existing_range, range) {
        if es == range.start {
            ret.should_delete = true;
        }
        if range.end != ee {
            let mut after = copy_tag(existing_elem);
            after.start = range.end;
            ret.to_insert = Some(after);
        }
        existing_elem.end = range.start;
    } else if range_starts_overlapping(range, &existing_range) {
        existing_elem.end = range.start;
        if existing_elem.start == existing_elem.end {
            ret.should_delete = true;
        }
    } else if range_ends_overlapping(range, &existing_range) {
        existing_elem.start = range.end;
        if existing_elem.start == existing_elem.end {
            ret.should_delete = true;
        }
    }
    // The four cases cover every pair of ranges.
    ret
}

/// The positions of `v` in increasing order.
fn sort_positions(v: &Vec<usize>) -> (r: Vec<usize>)
    requires
        v@.no_duplicates(),
    ensures
        strictly_increasing(r@),
        listed(r@) == listed(v@),
{
    let mut r: Vec<usize> = Vec::new();
    let mut i: usize = 0;
    proof {
        assert(listed(r@) =~= listed(v@.take(0)));
    }
    while i < v.len()
        invariant
            i <= v.len(),
            v@.no_duplicates(),
            strictly_increasing(r@),
            listed(r@) == listed(v@.take(i as int)),
        decreases v.len() - i,
    {
        let x = v[i];
        let mut j: usize = 0;
        while j < r.len() && r[j] < x
            invariant
                j <= r.len(),
                forall|a: int| 0 <= a < j ==> r[a] < x,
            decreases r.len() - j,
        {
            j += 1;
        }
        proof {
            assert(!listed(r@).contains(x as int)) by {
                if listed(v@.take(i as int)).contains(x as int) {
                    let a = choose|a: int| 0 <= a < i && v@.take(i as int)[a] as int == x as int;
                    assert(v@[a] == v@[i as int]);
                }
            }
            if j < r.len() {
                assert(r[j as int] != x) by {
                    assert(listed(r@).contains(r[j as int] as int));
                }
            }
        }
        let ghost r0 = r@;
        r.insert(j, x);
        proof {
            assert(strictly_increasing(r@)) by {
                assert forall|a: int, b: int| 0 <= a < b < r@.len() implies r@[a] < r@[b] by {
                    if b < j {
                        assert(r@[a] == r0[a] && r@[b] == r0[b]);
                    } else if b == j {
                        assert(r@[a] == r0[a]);
                    } else if a < j {
                        assert(r@[a] == r0[a] && r@[b] == r0[b - 1]);
                        assert(r0[j as int] > x);
                        assert(r0[a] < x);
                    } else if a == j {
                        assert(r@[b] == r0[b - 1]);
                        assert(r0[j as int] <= r0[b - 1]);
                    } else {
                        assert(r@[a] == r0[a - 1] && r@[b] == r0[b - 1]);
                    }
                }
            }
            lemma_listed_insert(r0, j as int, x);
            assert(v@.take(i + 1) =~= v@.take(i as int).push(x));
            lemma_listed_push(v@.take(i as int), x);
        }
        i += 1;
    }
    proof {
        assert(v@.take(v@.len() as int) =~= v@);
    }
    r
}

/// Removes the elements at the positions `to_delete` from `vec`: the
/// positions are sorted and taken from the back, so that each removal
/// leaves the lower positions where they are.
fn delete_items_from_vec<T>(to_delete: Vec<usize>, vec: &mut Vec<T>)
    requires
        to_delete@.no_duplicates(),
        forall|i: int| 0 <= i < to_delete.len() ==> to_delete[i] < old(vec).len(),
    ensures
        final(vec)@ == without_positions(old(vec)@, listed(to_delete@)),
{
    let sorted = sort_positions(&to_delete);
    let ghost orig = vec@;
    proof {
        assert forall|a: int| 0 <= a < sorted.len() implies sorted[a] < orig.len() by {
            assert(listed(sorted@).contains(sorted[a] as int));
            let i = choose|i: int| 0 <= i < to_delete.len() && to_delete[i] as int == sorted[a] as int;
        }
        assert(listed(sorted@.skip(sorted@.len() as int)) =~= Set::<int>::empty());
        lemma_without_no_position(orig, Set::<int>::empty());
    }
    let mut k: usize = sorted.len();
    while k > 0
        invariant
            k <= sorted.len(),
            strictly_increasing(sorted@),
            forall|a: int| 0 <= a < sorted.len() ==> sorted[a] < orig.len(),
            vec@ == without_positions(orig, listed(sorted@.skip(k as int))),
        decreases k,
    {
        let p = sorted[k - 1];
        proof {
            let ps = listed(sorted@.skip(k as int));
            assert forall|q: int| ps.contains(q) implies q > p by {
                let a = choose|a: int| 0 <= a < sorted@.skip(k as int).len() && sorted@.skip(k as int)[a] as int == q;
                assert(sorted@[k + a] as int == q);
            }
            lemma_without_insert(orig, ps, p as int);
            lemma_listed_skip(sorted@, k as int);
        }
        vec.remove(p);
        k -= 1;
    }
    proof {
        assert(sorted@.skip(0) =~= sorted@);
    }
}

/// Adjusts every tag that overlaps `range` (see [`adjust_all`]): the tags
/// kept, in order, then the parts split off.
pub fn adjust_existing_format_ranges(existing: &mut Vec<FormatTag>, range: &Range<usize>)
    ensures
        final(existing).deep_view() == adjust_all(old(existing).deep_view(), (range.start as int, range.end as int)).0
            + adjust_all(old(existing).deep_view(), (range.start as int, range.end as int)).1,
{
    let ghost r = (range.start as int, range.end as int);
    let ghost tags = existing.deep_view();
    let mut to_delete: Vec<usize> = Vec::new();
    let mut to_push: Vec<FormatTag> = Vec::new();
    let mut i: usize = 0;
    proof {
        assert(tags.take(0) =~= Seq::<TagModel>::empty());
        assert(existing.deep_view().take(0) =~= Seq::<TagModel>::empty());
        assert(to_push.deep_view() =~= Seq::<TagModel>::empty());
    }
    while i < existing.len()
        invariant
            i <= existing@.len(),
            existing@.len() == tags.len(),
            forall|k: int| i <= k < tags.len() ==> (#[trigger] existing.deep_view()[k]) == tags[k],
            r == (range.start as int, range.end as int),
            to_delete@.no_duplicates(),
            forall|a: int| 0 <= a < to_delete.len() ==> to_delete[a] < i,
            without_positions(existing.deep_view().take(i as int), listed(to_delete@)) == adjust_all(
                tags.take(i as int),
                r,
            ).0,
            to_push.deep_view() == adjust_all(tags.take(i as int), r).1,
        decreases existing@.len() - i,
    {
        assert(tags.take(i + 1).drop_last() =~= tags.take(i as int));
        let ghost e0 = existing.deep_view();
        let ghost t0 = to_delete@;
        let ghost d0 = listed(t0);
        let ghost p0 = to_push.deep_view();
        assert(e0[i as int] == tags[i as int]);
        let mut item = copy_tag(&existing[i]);
        if ranges_overlap(Range { start: item.start, end: item.end }, Range { start: range.start, end: range.end }) {
            let adjustment = adjust_existing_format_range(&mut item, range);
            if adjustment.should_delete {
                let ghost before = to_delete@;
                to_delete.push(i);
                proof {
                    lemma_listed_push(before, i);
                    assert forall|a: int, b: int| 0 <= a < b < to_delete@.len() implies to_delete@[a] != to_delete@[b] by {
                        if b == before.len() {
                            assert(to_delete@[a] == before[a]);
                        }
                    }
                }
            }
            match adjustment.to_insert {
                Some(t) => {
                    to_push.push(t);
                },
                None => {},
            }
            assert(to_push.deep_view() =~= p0 + opt_seq(adjust_tag(tags[i as int], r).1));
        } else {
            assert(to_push.deep_view() =~= p0);
        }
        let ghost pre = existing@;
        existing.set(i, item);
        proof {
            lemma_set_deep_view(pre, existing@, i as int, item);
            let e1 = existing.deep_view();
            let d1 = listed(to_delete@);
            assert(e1.take(i + 1).drop_last() =~= e0.take(i as int));
            assert(e1.take(i + 1).last() == item.deep_view());
            assert(d1 == d0 || d1 == d0.insert(i as int));
            lemma_without_positions_agree(e0.take(i as int), d1, d0);
            assert(!d0.contains(i as int)) by {
                if d0.contains(i as int) {
                    let a = choose|a: int| 0 <= a < t0.len() && t0[a] as int == i as int;
                }
            }
        }
        i += 1;
    }
    proof {
        assert(tags.take(tags.len() as int) =~= tags);
        assert(existing.deep_view().take(existing@.len() as int) =~= existing.deep_view());
    }
    let ghost e2 = existing@;
    let ghost e2d = existing.deep_view();
    let ghost d2 = listed(to_delete@);
    delete_items_from_vec(to_delete, existing);
    proof {
        lemma_without_deep(e2, d2);
        assert(deep_seq(e2) =~= e2d);
        assert(deep_seq(existing@) =~= existing.deep_view());
    }
    let ghost k1 = existing.deep_view();
    let mut j: usize = 0;
    while j < to_push.len()
        invariant
            j <= to_push@.len(),
            existing.deep_view() == k1 + to_push.deep_view().take(j as int),
        decreases to_push@.len() - j,
    {
        let ghost before = existing@;
        let t = copy_tag(&to_push[j]);
        existing.push(t);
        proof {
            lemma_push_deep_view(before, existing@, t);
        }
        j += 1;
        assert(existing.deep_view() =~= k1 + to_push.deep_view().take(j as int));
    }
    assert(to_push.deep_view().take(to_push@.len() as int) =~= to_push.deep_view());
}

proof fn lemma_insert_by_start_split(s: Seq<TagModel>, x: TagModel, j: int)
    requires
        0 <= j <= s.len(),
        forall|k: int| j <= k < s.len() ==> (#[trigger] s[k]).start > x.start,
        j == 0 || s[j - 1].start <= x.start,
    ensures
        insert_by_start(s, x) == s.take(j).push(x) + s.skip(j),
    decreases s.len() - j,
{
    if j == s.len() {
        assert(s.take(j) =~= s);
        assert(s.skip(j) =~= Seq::<TagModel>::empty());
        if s.len() > 0 {
            assert(s.last() == s[j - 1]);
        }
        assert(s.take(j).push(x) + s.skip(j) =~= s.push(x));
    } else {
        let p = s.drop_last();
        assert(s.last() == s[s.len() - 1]);
        lemma_insert_by_start_split(p, x, j);
        assert(p.take(j) =~= s.take(j));
        assert(s.skip(j) =~= p.skip(j).push(s.last()));
        assert(insert_by_start(s, x) =~= s.take(j).push(x) + s.skip(j));
    }
}

/// Sorts the tags by start, keeping tags with equal starts in order.
fn sort_tags_by_start(tags: Vec<FormatTag>) -> (r: Vec<FormatTag>)
    ensures
        r.deep_view() == sort_by_start(tags.deep_view()),
{
    let ghost s = tags.deep_view();
    let mut out: Vec<FormatTag> = Vec::new();
    let mut i: usize = 0;
    proof {
        assert(s.take(0) =~= Seq::<TagModel>::empty());
        assert(out.deep_view() =~= Seq::<TagModel>::empty());
    }
    while i < tags.len()
        invariant
            i <= tags@.len(),
            s == tags.deep_view(),
            out.deep_view() == sort_by_start(s.take(i as int)),
        decreases tags@.len() - i,
    {
        assert(s.take(i + 1).drop_last() =~= s.take(i as int));
        let x = copy_tag(&tags[i]);
        let ghost cur = out.deep_view();
        let mut j = out.len();
        while j > 0 && out[j - 1].start > x.start
            invariant
                j <= out@.len(),
                cur == out.deep_view(),
                forall|k: int| j <= k < cur.len() ==> (#[trigger] cur[k]).start > x.start,
            decreases j,
        {
            j -= 1;
        }
        proof {
            lemma_insert_by_start_split(cur, x.deep_view(), j as int);
        }
        out.insert(j, x);
        assert(out.deep_view() =~= cur.take(j as int).push(x.deep_view()) + cur.skip(j as int));
        i += 1;
    }
    assert(s.take(s.len() as int) =~= s);
    out
}

impl FormatTracker {
    /// A tracker with the default format over everything.
    pub fn new() -> (r: Self)
        ensures
            r@ == seq![default_tag()],
            tags_tile(r@),
    {
        let mut color_info: Vec<FormatTag> = Vec::new();
        color_info.push(FormatTag {
            start: 0,
            end: usize::MAX,
            color: TerminalColor::Default,
            background_color: TerminalColor::Black,
            underline_color: TerminalColor::DefaultUnderlineColor,
            font_weight: FontWeight::Normal,
            font_decorations: Vec::new(),
            line_wrap_mode: Decawm::default(),
        });
        let r = FormatTracker { color_info };
        assert(r.color_info.deep_view() =~= seq![default_tag()]);
        r
    }

    /// Gives the positions of `range` the format of `cursor`: the tags it
    /// overlaps are cut back (see [`adjust_all`]), a tag for the range is
    /// added, and the tags are sorted by start.
    pub fn push_range(&mut self, cursor: &CursorState, range: Range<usize>)
        ensures
            final(self)@ == push_range_result(old(self)@, cursor@, (range.start as int, range.end as int)),
    {
        adjust_existing_format_ranges(&mut self.color_info, &range);
        let ghost adjusted = self.color_info@;
        let decorations = cursor.font_decorations.clone();
        assert(decorations@ =~= cursor.font_decorations@);
        self.color_info.push(FormatTag {
            start: range.start,
            end: range.end,
            color: cursor.color,
            background_color: cursor.background_color,
            underline_color: cursor.underline_color,
            font_weight: cursor.font_weight,
            font_decorations: decorations,
            line_wrap_mode: cursor.line_wrap_mode,
        });
        proof {
            lemma_push_deep_view(adjusted, self.color_info@, self.color_info@.last());
        }
        let mut tags: Vec<FormatTag> = Vec::new();
        std::mem::swap(&mut tags, &mut self.color_info);
        self.color_info = sort_tags_by_start(tags);
    }

    /// Makes room for `range.end - range.start` positions inserted at
    /// `range.start` (see [`adjust_for_insert`]).
    pub fn push_range_adjustment(&mut self, range: Range<usize>)
        requires
            range.start <= range.end,
            forall|i: int|
                0 <= i < old(self)@.len() ==> shift_fits(#[trigger] old(self)@[i], range.end - range.start),
        ensures
            final(self)@ == Seq::new(
                old(self)@.len(),
                |i: int| adjust_for_insert(old(self)@[i], range.start as int, range.end - range.start),
            ),
    {
        let range_len = range.end - range.start;
        let ghost tags = self@;
        let mut i: usize = 0;
        while i < self.color_info.len()
            invariant
                i <= self.color_info@.len(),
                self.color_info@.len() == tags.len(),
                range_len == range.end - range.start,
                forall|k: int| 0 <= k < tags.len() ==> shift_fits(#[trigger] tags[k], range_len as int),
                forall|k: int| 0 <= k < i ==> (#[trigger] self.color_info.deep_view()[k]) == adjust_for_insert(
                    tags[k],
                    range.start as int,
                    range_len as int,
                ),
                forall|k: int| i <= k < tags.len() ==> (#[trigger] self.color_info.deep_view()[k]) == tags[k],
            decreases tags.len() - i,
        {
            assert(self.color_info.deep_view()[i as int] == tags[i as int]);
            let mut info = copy_tag(&self.color_info[i]);
            assert(info.deep_view() == tags[i as int]);
            if info.end <= range.start {
            } else if info.start > range.start {
                info.start = info.start + range_len;
                if info.end != usize::MAX {
                    info.end = info.end + range_len;
                }
            } else if info.end != usize::MAX {
                info.end = info.end + range_len;
            }
            let ghost pre = self.color_info@;
            let ghost info_dv = info.deep_view();
            self.color_info.set(i, info);
            proof {
                lemma_set_deep_view(pre, self.color_info@, i as int, info);
            }
            i += 1;
        }
        assert(self@ =~= Seq::new(
            tags.len(),
            |k: int| adjust_for_insert(tags[k], range.start as int, range.end - range.start),
        ));
    }

    /// Copies of the tags.
    pub fn tags(&self) -> (r: Vec<FormatTag>)
        ensures
            r.deep_view() == self@,
    {
        let mut out: Vec<FormatTag> = Vec::new();
        let mut i: usize = 0;
        while i < self.color_info.len()
            invariant
                i <= self.color_info@.len(),
                out.deep_view() == self.color_info.deep_view().take(i as int),
            decreases self.color_info@.len() - i,
        {
            let ghost before = out@;
            let t = copy_tag(&self.color_info[i]);
            out.push(t);
            proof {
                lemma_push_deep_view(before, out@, t);
            }
            i += 1;
            assert(out.deep_view() =~= self.color_info.deep_view().take(i as int));
        }
        assert(self.color_info.deep_view().take(self.color_info@.len() as int) =~= self.color_info.deep_view());
        out
    }

    /// Deletes the positions of `range` (see [`delete_from_tag`]).
    pub fn delete_range(&mut self, range: Range<usize>)
        requires
            range.start <= range.end,
            tags_wf(old(self)@),
        ensures
            final(self)@ == delete_range_result(old(self)@, (range.start as int, range.end as int)),
    {
        let ghost r = (range.start as int, range.end as int);
        let ghost tags = self@;
        let del_size = range.end - range.start;
        let mut out: Vec<FormatTag> = Vec::new();
        let mut i: usize = 0;
        proof {
            assert(tags.take(0) =~= Seq::<TagModel>::empty());
            assert(out.deep_view() =~= Seq::<TagModel>::empty());
        }
        while i < self.color_info.len()
            invariant
                i <= self.color_info@.len(),
                tags == self.color_info.deep_view(),
                tags_wf(tags),
                r == (range.start as int, range.end as int),
                del_size == range.end - range.start,
                out.deep_view() == delete_range_result(tags.take(i as int), r),
            decreases tags.len() - i,
        {
            assert(tags.take(i + 1).drop_last() =~= tags.take(i as int));
            assert(tags[i as int].start <= tags[i as int].end);
            let ghost o0 = out.deep_view();
            let mut info = copy_tag(&self.color_info[i]);
            let s = info.start;
            let e = info.end;
            let mut keep = true;
            if e <= range.start {
            } else if !(range.end <= s || range.start >= e) {
                if range.start <= s && range.end >= e {
                    keep = false;
                } else if range.start > s && range.end > e {
                    if e != usize::MAX {
                        info.end = range.start;
                    }
                } else if s > range.start && e > range.end {
                    info.start = range.start;
                    if e != usize::MAX {
                        info.end = e - del_size;
                    }
                } else {
                    if e != usize::MAX {
                        info.end = e - del_size;
                    }
                }
            } else {
                info.start = s - del_size;
                if e != usize::MAX {
                    info.end = e - del_size;
                }
            }
            if keep {
                out.push(info);
            }
            assert(out.deep_view() =~= o0 + opt_seq(delete_from_tag(tags[i as int], r)));
            i += 1;
        }
        assert(tags.take(tags.len() as int) =~= tags);
        self.color_info = out;
    }
}

impl FormatTracker {
    /// Whether every tag can be moved by `len` positions.
    pub fn fits_shift(&self, len: usize) -> (r: bool)
        ensures
            r == forall|i: int| 0 <= i < self@.len() ==> shift_fits(#[trigger] self@[i], len as int),
    {
        let mut i: usize = 0;
        while i < self.color_info.len()
            invariant
                i <= self.color_info@.len(),
                forall|k: int| 0 <= k < i ==> shift_fits(#[trigger] self@[k], len as int),
            decreases self.color_info@.len() - i,
        {
            let t = &self.color_info[i];
            assert(self@[i as int] == t.deep_view());
            let fits = t.start <= usize::MAX - len && (t.end == usize::MAX || t.end <= usize::MAX - len);
            if !fits {
                return false;
            }
            i += 1;
        }
        true
    }
}

/// Whether a tag starts no later than it ends.
pub open spec fn tag_wf(t: TagModel) -> bool {
    t.start <= t.end
}

proof fn lemma_insert_by_start_wf(s: Seq<TagModel>, x: TagModel)
    requires
        tags_wf(s),
        tag_wf(x),
    ensures
        tags_wf(insert_by_start(s, x)),
    decreases s.len(),
{
    if s.len() == 0 || s.last().start <= x.start {
        assert forall|i: int| 0 <= i < s.push(x).len() implies (#[trigger] s.push(x)[i]).start
            <= s.push(x)[i].end by {
            if i < s.len() {
                assert(s.push(x)[i] == s[i]);
            }
        }
    } else {
        let p = s.drop_last();
        assert forall|i: int| 0 <= i < p.len() implies (#[trigger] p[i]).start <= p[i].end by {
            assert(p[i] == s[i]);
        }
        lemma_insert_by_start_wf(p, x);
        let q = insert_by_start(p, x);
        assert(s.last() == s[s.len() - 1]);
        assert forall|i: int| 0 <= i < q.push(s.last()).len() implies (#[trigger] q.push(
            s.last(),
        )[i]).start <= q.push(s.last())[i].end by {
            if i < q.len() {
                assert(q.push(s.last())[i] == q[i]);
            }
        }
    }
}

proof fn lemma_sort_by_start_wf(s: Seq<TagModel>)
    requires
        tags_wf(s),
    ensures
        tags_wf(sort_by_start(s)),
    decreases s.len(),
{
    if s.len() > 0 {
        let p = s.drop_last();
        assert forall|i: int| 0 <= i < p.len() implies (#[trigger] p[i]).start <= p[i].end by {
            assert(p[i] == s[i]);
        }
        lemma_sort_by_start_wf(p);
        assert(s.last() == s[s.len() - 1]);
        lemma_insert_by_start_wf(sort_by_start(p), s.last());
    }
}

proof fn lemma_concat_wf(a: Seq<TagModel>, b: Seq<TagModel>)
    requires
        tags_wf(a),
        tags_wf(b),
    ensures
        tags_wf(a + b),
{
    assert forall|i: int| 0 <= i < (a + b).len() implies (#[trigger] (a + b)[i]).start <= (a
        + b)[i].end by {
        if i < a.len() {
            assert((a + b)[i] == a[i]);
        } else {
            assert((a + b)[i] == b[i - a.len()]);
        }
    }
}

proof fn lemma_opt_seq_wf(o: Option<TagModel>)
    requires
        o matches Some(t) ==> tag_wf(t),
    ensures
        tags_wf(opt_seq(o)),
{
}

proof fn lemma_adjust_all_wf(tags: Seq<TagModel>, r: (int, int))
    requires
        tags_wf(tags),
        0 <= r.0 <= r.1 <= usize::MAX,
    ensures
        tags_wf(adjust_all(tags, r).0),
        tags_wf(adjust_all(tags, r).1),
    decreases tags.len(),
{
    if tags.len() > 0 {
        let p = tags.drop_last();
        assert forall|i: int| 0 <= i < p.len() implies (#[trigger] p[i]).start <= p[i].end by {
            assert(p[i] == tags[i]);
        }
        lemma_adjust_all_wf(p, r);
        let t = tags.last();
        assert(t == tags[tags.len() - 1]);
        let prev = adjust_all(p, r);
        if spans_overlap(span(t), r) {
            let a = adjust_tag(t, r);
            lemma_opt_seq_wf(a.0);
            lemma_opt_seq_wf(a.1);
            lemma_concat_wf(prev.0, opt_seq(a.0));
            lemma_concat_wf(prev.1, opt_seq(a.1));
        } else {
            lemma_concat_wf(prev.0, seq![t]);
            assert(prev.0.push(t) =~= prev.0 + seq![t]);
        }
    }
}

/// Writing a range keeps every tag starting no later than it ends.
pub proof fn lemma_push_range_keeps_tags_wf(tags: Seq<TagModel>, cursor: CursorModel, r: (int, int))
    requires
        tags_wf(tags),
        0 <= r.0 <= r.1 <= usize::MAX,
    ensures
        tags_wf(push_range_result(tags, cursor, r)),
{
    lemma_adjust_all_wf(tags, r);
    let a = adjust_all(tags, r);
    lemma_concat_wf(a.0, a.1);
    lemma_concat_wf(a.0 + a.1, seq![cursor_tag(cursor, r)]);
    assert((a.0 + a.1).push(cursor_tag(cursor, r)) =~= (a.0 + a.1) + seq![cursor_tag(cursor, r)]);
    lemma_sort_by_start_wf((a.0 + a.1).push(cursor_tag(cursor, r)));
}

/// Making room for inserted positions keeps every tag starting no later
/// than it ends.
pub proof fn lemma_insert_adjustment_keeps_tags_wf(tags: Seq<TagModel>, at: int, len: int)
    requires
        tags_wf(tags),
        len >= 0,
        forall|i: int| 0 <= i < tags.len() ==> shift_fits(#[trigger] tags[i], len),
    ensures
        tags_wf(Seq::new(tags.len(), |i: int| adjust_for_insert(tags[i], at, len))),
{
    let n = Seq::new(tags.len(), |i: int| adjust_for_insert(tags[i], at, len));
    assert forall|i: int| 0 <= i < n.len() implies (#[trigger] n[i]).start <= n[i].end by {
        assert(tags[i].start <= tags[i].end);
        assert(shift_fits(tags[i], len));
    }
}

/// Deleting a range keeps every tag starting no later than it ends.
pub proof fn lemma_delete_keeps_tags_wf(tags: Seq<TagModel>, r: (int, int))
    requires
        tags_wf(tags),
        0 <= r.0 <= r.1 <= usize::MAX,
    ensures
        tags_wf(delete_range_result(tags, r)),
    decreases tags.len(),
{
    if tags.len() > 0 {
        let p = tags.drop_last();
        assert forall|i: int| 0 <= i < p.len() implies (#[trigger] p[i]).start <= p[i].end by {
            assert(p[i] == tags[i]);
        }
        lemma_delete_keeps_tags_wf(p, r);
        assert(tags.last() == tags[tags.len() - 1]);
        lemma_opt_seq_wf(delete_from_tag(tags.last(), r));
        lemma_concat_wf(delete_range_result(p, r), opt_seq(delete_from_tag(tags.last(), r)));
    }
}

proof fn lemma_insert_by_start_elems(s: Seq<TagModel>, x: TagModel)
    ensures
        insert_by_start(s, x).contains(x),
        forall|i: int|
            0 <= i < insert_by_start(s, x).len() ==> #[trigger] insert_by_start(s, x)[i] == x
                || s.contains(insert_by_start(s, x)[i]),
    decreases s.len(),
{
    let q = insert_by_start(s, x);
    if s.len() == 0 || s.last().start <= x.start {
        assert(q[s.len() as int] == x);
        assert forall|i: int| 0 <= i < q.len() implies #[trigger] q[i] == x || s.contains(q[i]) by {
            if i < s.len() {
                assert(q[i] == s[i]);
            }
        }
    } else {
        let p = s.drop_last();
        lemma_insert_by_start_elems(p, x);
        let q0 = insert_by_start(p, x);
        assert(q == q0.push(s.last()));
        let w = choose|j: int| 0 <= j < q0.len() && q0[j] == x;
        assert(q[w] == x);
        assert forall|i: int| 0 <= i < q.len() implies #[trigger] q[i] == x || s.contains(q[i]) by {
            if i < q0.len() {
                assert(q[i] == q0[i]);
                if q0[i] != x {
                    let j = choose|j: int| 0 <= j < p.len() && p[j] == q0[i];
                    assert(s[j] == p[j]);
                }
            } else {
                assert(q[i] == s[s.len() - 1]);
            }
        }
    }
}

proof fn lemma_sort_by_start_elems(s: Seq<TagModel>)
    ensures
        forall|i: int| 0 <= i < sort_by_start(s).len() ==> s.contains(#[trigger] sort_by_start(s)[i]),
    decreases s.len(),
{
    if s.len() > 0 {
        let p = s.drop_last();
        lemma_sort_by_start_elems(p);
        lemma_insert_by_start_elems(sort_by_start(p), s.last());
        let q = sort_by_start(s);
        assert forall|i: int| 0 <= i < q.len() implies s.contains(#[trigger] q[i]) by {
            if q[i] == s.last() {
                assert(s[s.len() - 1] == s.last());
            } else {
                let k = choose|k: int| 0 <= k < sort_by_start(p).len() && sort_by_start(p)[k] == q[i];
                let j = choose|j: int| 0 <= j < p.len() && p[j] == sort_by_start(p)[k];
                assert(s[j] == p[j]);
            }
        }
    }
}

proof fn lemma_adjust_all_clear_of(tags: Seq<TagModel>, r: (int, int))
    requires
        0 <= r.0 <= r.1 <= usize::MAX,
    ensures
        forall|i: int|
            0 <= i < (adjust_all(tags, r).0 + adjust_all(tags, r).1).len() ==> !spans_overlap(
                span(#[trigger] (adjust_all(tags, r).0 + adjust_all(tags, r).1)[i]),
                r,
            ),
    decreases tags.len(),
{
    if tags.len() > 0 {
        let p = tags.drop_last();
        lemma_adjust_all_clear_of(p, r);
        let prev = adjust_all(p, r);
        let cur = adjust_all(tags, r);
        let t = tags.last();
        assert forall|i: int| 0 <= i < prev.0.len() implies !spans_overlap(span(#[trigger] prev.0[i]), r) by {
            assert((prev.0 + prev.1)[i] == prev.0[i]);
        }
        assert forall|i: int| 0 <= i < prev.1.len() implies !spans_overlap(span(#[trigger] prev.1[i]), r) by {
            assert((prev.0 + prev.1)[prev.0.len() + i] == prev.1[i]);
        }
        let all = cur.0 + cur.1;
        assert forall|i: int| 0 <= i < all.len() implies !spans_overlap(span(#[trigger] all[i]), r) by {
            if i < cur.0.len() {
                assert(all[i] == cur.0[i]);
                if i < prev.0.len() {
                    assert(cur.0[i] == prev.0[i]);
                }
            } else {
                let k = i - cur.0.len();
                assert(all[i] == cur.1[k]);
                if k < prev.1.len() {
                    assert(cur.1[k] == prev.1[k]);
                }
            }
        }
    }
}

/// Writing over a range gives it the cursor's format: afterwards the
/// cursor's tag covers the range, and no other tag reaches into it.
pub proof fn lemma_written_range_takes_cursor_format(tags: Seq<TagModel>, cursor: CursorModel, r: (int, int))
    requires
        0 <= r.0 <= r.1 <= usize::MAX,
    ensures
        push_range_result(tags, cursor, r).contains(cursor_tag(cursor, r)),
        forall|i: int|
            0 <= i < push_range_result(tags, cursor, r).len() ==> #[trigger] push_range_result(
                tags,
                cursor,
                r,
            )[i] == cursor_tag(cursor, r) || !spans_overlap(
                span(push_range_result(tags, cursor, r)[i]),
                r,
            ),
{
    let a = adjust_all(tags, r);
    let q = (a.0 + a.1).push(cursor_tag(cursor, r));
    let res = push_range_result(tags, cursor, r);
    assert(q.drop_last() =~= a.0 + a.1);
    lemma_insert_by_start_elems(sort_by_start(a.0 + a.1), cursor_tag(cursor, r));
    lemma_sort_by_start_elems(q);
    lemma_adjust_all_clear_of(tags, r);
    assert forall|i: int| 0 <= i < res.len() implies #[trigger] res[i] == cursor_tag(cursor, r)
        || !spans_overlap(span(res[i]), r) by {
        let j = choose|j: int| 0 <= j < q.len() && q[j] == res[i];
        if j < (a.0 + a.1).len() {
            assert(q[j] == (a.0 + a.1)[j]);
        }
    }
}

/// Whether a tag covers buffer position `p`.
pub open spec fn covers(t: TagModel, p: int) -> bool {
    t.start <= p < t.end
}

/// How many of the tags cover position `p`.
pub open spec fn cover_count(tags: Seq<TagModel>, p: int) -> nat
    decreases tags.len(),
{
    if tags.len() == 0 {
        0
    } else {
        cover_count(tags.drop_last(), p) + if covers(tags.last(), p) {
            1nat
        } else {
            0nat
        }
    }
}

/// Whether two tags give the same format (their positions aside).
pub open spec fn same_format(a: TagModel, b: TagModel) -> bool {
    &&& a.color == b.color
    &&& a.background_color == b.background_color
    &&& a.underline_color == b.underline_color
    &&& a.font_weight == b.font_weight
    &&& a.font_decorations == b.font_decorations
    &&& a.line_wrap_mode == b.line_wrap_mode
}

/// Whether the tags tile the buffer: each is non-empty, the first starts at
/// 0, each ends where the next starts, and the last ends at `usize::MAX`.
pub open spec fn tags_tile(tags: Seq<TagModel>) -> bool {
    &&& tags.len() > 0
    &&& tags[0].start == 0
    &&& tags.last().end == usize::MAX
    &&& forall|i: int| 0 <= i < tags.len() ==> (#[trigger] tags[i]).start < tags[i].end
    &&& forall|i: int| 0 <= i < tags.len() - 1 ==> #[trigger] tags[i].end == tags[i + 1].start
}

proof fn lemma_count_add(a: Seq<TagModel>, b: Seq<TagModel>, p: int)
    ensures
        cover_count(a + b, p) == cover_count(a, p) + cover_count(b, p),
    decreases b.len(),
{
    if b.len() == 0 {
        assert(a + b =~= a);
    } else {
        lemma_count_add(a, b.drop_last(), p);
        assert((a + b).drop_last() =~= a + b.drop_last());
    }
}

proof fn lemma_count_single(x: TagModel, p: int)
    ensures
        cover_count(seq![x], p) == if covers(x, p) {
            1nat
        } else {
            0nat
        },
{
    assert(seq![x].drop_last() =~= Seq::<TagModel>::empty());
    assert(cover_count(Seq::<TagModel>::empty(), p) == 0);
    assert(seq![x].last() == x);
}

proof fn lemma_count_opt(o: Option<TagModel>, p: int)
    ensures
        cover_count(opt_seq(o), p) == match o {
            Some(x) => if covers(x, p) {
                1nat
            } else {
                0nat
            },
            None => 0nat,
        },
{
    match o {
        Some(x) => lemma_count_single(x, p),
        None => {},
    }
}

proof fn lemma_count_insert(s: Seq<TagModel>, x: TagModel, p: int)
    ensures
        cover_count(insert_by_start(s, x), p) == cover_count(s, p) + if covers(x, p) {
            1nat
        } else {
            0nat
        },
    decreases s.len(),
{
    if s.len() == 0 || s.last().start <= x.start {
        assert(s.push(x).drop_last() =~= s);
    } else {
        lemma_count_insert(s.drop_last(), x, p);
        let q = insert_by_start(s.drop_last(), x);
        assert(q.push(s.last()).drop_last() =~= q);
    }
}

proof fn lemma_count_sort(s: Seq<TagModel>, p: int)
    ensures
        cover_count(sort_by_start(s), p) == cover_count(s, p),
    decreases s.len(),
{
    if s.len() > 0 {
        lemma_count_sort(s.drop_last(), p);
        lemma_count_insert(sort_by_start(s.drop_last()), s.last(), p);
    }
}

/// Whether the starts never decrease.
pub open spec fn sorted_by_start(s: Seq<TagModel>) -> bool {
    forall|i: int, j: int| 0 <= i < j < s.len() ==> s[i].start <= s[j].start
}

proof fn lemma_insert_sorted(s: Seq<TagModel>, x: TagModel)
    requires
        sorted_by_start(s),
    ensures
        sorted_by_start(insert_by_start(s, x)),
    decreases s.len(),
{
    let q = insert_by_start(s, x);
    if s.len() == 0 || s.last().start <= x.start {
        assert forall|i: int, j: int| 0 <= i < j < q.len() implies q[i].start <= q[j].start by {
            if j == s.len() {
                assert(s[i].start <= s.last().start);
            }
        }
    } else {
        let p = s.drop_last();
        lemma_insert_sorted(p, x);
        lemma_insert_by_start_elems(p, x);
        let q0 = insert_by_start(p, x);
        assert forall|i: int, j: int| 0 <= i < j < q.len() implies q[i].start <= q[j].start by {
            if j == q0.len() {
                assert(q[i] == q0[i]);
                if q0[i] != x {
                    let k = choose|k: int| 0 <= k < p.len() && p[k] == q0[i];
                    assert(s[k] == p[k]);
                }
            } else {
                assert(q[i] == q0[i] && q[j] == q0[j]);
            }
        }
    }
}

proof fn lemma_sort_sorted(s: Seq<TagModel>)
    ensures
        sorted_by_start(sort_by_start(s)),
    decreases s.len(),
{
    if s.len() > 0 {
        lemma_sort_sorted(s.drop_last());
        lemma_insert_sorted(sort_by_start(s.drop_last()), s.last());
    }
}

proof fn lemma_count_positive(s: Seq<TagModel>, p: int, i: int)
    requires
        0 <= i < s.len(),
        covers(s[i], p),
    ensures
        cover_count(s, p) >= 1,
        forall|j: int| 0 <= j < s.len() && j != i && covers(#[trigger] s[j], p) ==> cover_count(s, p) >= 2,
    decreases s.len(),
{
    let l = s.len() - 1;
    if i < l {
        lemma_count_positive(s.drop_last(), p, i);
        assert(s.drop_last()[i] == s[i]);
        assert forall|j: int| 0 <= j < s.len() && j != i && covers(#[trigger] s[j], p) implies cover_count(s, p)
            >= 2 by {
            if j < l {
                assert(s.drop_last()[j] == s[j]);
            }
        }
    } else {
        assert forall|j: int| 0 <= j < s.len() && j != i && covers(#[trigger] s[j], p) implies cover_count(s, p)
            >= 2 by {
            assert(s.drop_last()[j] == s[j]);
            lemma_count_positive(s.drop_last(), p, j);
        }
    }
}

proof fn lemma_chain_count(tags: Seq<TagModel>, p: int)
    requires
        tags.len() > 0,
        forall|i: int| 0 <= i < tags.len() ==> (#[trigger] tags[i]).start < tags[i].end,
        forall|i: int| 0 <= i < tags.len() - 1 ==> #[trigger] tags[i].end == tags[i + 1].start,
    ensures
        tags[0].start < tags.last().end,
        cover_count(tags, p) == if tags[0].start <= p < tags.last().end {
            1nat
        } else {
            0nat
        },
    decreases tags.len(),
{
    if tags.len() == 1 {
        assert(tags.drop_last() =~= Seq::<TagModel>::empty());
        assert(cover_count(Seq::<TagModel>::empty(), p) == 0);
        assert(tags.last() == tags[0]);
    } else {
        let init = tags.drop_last();
        assert forall|i: int| 0 <= i < init.len() implies (#[trigger] init[i]).start < init[i].end by {
            assert(init[i] == tags[i]);
        }
        assert forall|i: int| 0 <= i < init.len() - 1 implies #[trigger] init[i].end == init[i + 1].start by {
            assert(init[i] == tags[i] && init[i + 1] == tags[i + 1]);
            assert(tags[i].end == tags[i + 1].start);
        }
        lemma_chain_count(init, p);
        assert(init.last() == tags[tags.len() - 2]);
        assert(tags[tags.len() - 2].end == tags[tags.len() - 1].start);
        assert(tags.last() == tags[tags.len() - 1]);
        assert(tags[tags.len() - 1].start < tags[tags.len() - 1].end);
        assert(init[0] == tags[0]);
    }
}

proof fn lemma_two_covers(s: Seq<TagModel>, p: int, i: int, j: int)
    requires
        0 <= i < s.len(),
        0 <= j < s.len(),
        i != j,
        covers(s[i], p),
        covers(s[j], p),
    ensures
        cover_count(s, p) >= 2,
{
    lemma_count_positive(s, p, i);
}

/// Tags sorted by start, each non-empty, that cover every position below
/// `usize::MAX` exactly once tile the buffer, with strictly increasing
/// starts.
#[verifier::rlimit(40)]
proof fn lemma_once_covered_tiles(s: Seq<TagModel>)
    requires
        sorted_by_start(s),
        forall|i: int| 0 <= i < s.len() ==> (#[trigger] s[i]).start < s[i].end,
        forall|p: int| 0 <= p < usize::MAX ==> #[trigger] cover_count(s, p) == 1,
    ensures
        tags_tile(s),
        forall|i: int, j: int| 0 <= i < j < s.len() ==> s[i].start < s[j].start,
{
    // A later tag starts after an earlier one, and no earlier than it ends.
    assert forall|i: int, j: int| 0 <= i < j < s.len() implies s[i].start < s[j].start && s[i].end
        <= s[j].start by {
        assert(s[i].start <= s[j].start);
        assert(s[i].start < s[i].end && s[j].start < s[j].end);
        if s[j].start < s[i].end {
            let p = s[j].start as int;
            assert(cover_count(s, p) == 1);
            lemma_two_covers(s, p, i, j);
        }
    }
    assert(cover_count(s, 0) == 1);
    let k0 = choose_cover(s, 0);
    assert(s[0].start <= s[k0].start);
    let m = usize::MAX - 1;
    assert(cover_count(s, m) == 1);
    let km = choose_cover(s, m);
    let l = s.len() - 1;
    if km < l {
        assert(s[km].end <= s[l].start);
        assert(s[l].start < s[l].end);
    }
    assert(s.last() == s[l]);
    assert forall|i: int| 0 <= i < s.len() - 1 implies #[trigger] s[i].end == s[i + 1].start by {
        let e = s[i].end as int;
        assert(s[i].end <= s[i + 1].start);
        assert(s[i + 1].start < s[i + 1].end);
        assert(e < usize::MAX);
        assert(cover_count(s, e) == 1);
        let k = choose_cover(s, e);
        if k < i {
            assert(s[k].end <= s[i].start);
        }
        if k > i + 1 {
            assert(s[i + 1].start < s[k].start);
        }
    }
}

/// An index of a tag that covers `p`, where some tag does.
proof fn choose_cover(s: Seq<TagModel>, p: int) -> (k: int)
    requires
        cover_count(s, p) >= 1,
    ensures
        0 <= k < s.len(),
        covers(s[k], p),
    decreases s.len(),
{
    if covers(s.last(), p) {
        s.len() - 1
    } else {
        let k = choose_cover(s.drop_last(), p);
        assert(s.drop_last()[k] == s[k]);
        k
    }
}

proof fn lemma_count_adjust(tags: Seq<TagModel>, r: (int, int), p: int)
    requires
        r.0 <= r.1,
        forall|i: int| 0 <= i < tags.len() ==> (#[trigger] tags[i]).start <= tags[i].end,
    ensures
        cover_count(adjust_all(tags, r).0 + adjust_all(tags, r).1, p) == if r.0 <= p < r.1 {
            0nat
        } else {
            cover_count(tags, p)
        },
    decreases tags.len(),
{
    if tags.len() == 0 {
        assert(adjust_all(tags, r).0 + adjust_all(tags, r).1 =~= Seq::<TagModel>::empty());
    } else {
        let init = tags.drop_last();
        assert forall|i: int| 0 <= i < init.len() implies (#[trigger] init[i]).start <= init[i].end by {
            assert(init[i] == tags[i]);
        }
        lemma_count_adjust(init, r, p);
        let prev = adjust_all(init, r);
        let t = tags.last();
        assert(t == tags[tags.len() - 1]);
        lemma_count_add(prev.0, prev.1, p);
        let cur = adjust_all(tags, r);
        lemma_count_add(cur.0, cur.1, p);
        if spans_overlap(span(t), r) {
            let a = adjust_tag(t, r);
            lemma_count_add(prev.0, opt_seq(a.0), p);
            lemma_count_add(prev.1, opt_seq(a.1), p);
            lemma_count_opt(a.0, p);
            lemma_count_opt(a.1, p);
        } else {
            assert(prev.0.push(t).drop_last() =~= prev.0);
        }
    }
}

proof fn lemma_adjust_origin(tags: Seq<TagModel>, r: (int, int))
    requires
        r.0 <= r.1,
        forall|i: int| 0 <= i < tags.len() ==> (#[trigger] tags[i]).start < tags[i].end,
    ensures
        forall|k: int|
            #![trigger (adjust_all(tags, r).0 + adjust_all(tags, r).1)[k]]
            0 <= k < (adjust_all(tags, r).0 + adjust_all(tags, r).1).len() ==> {
                let x = (adjust_all(tags, r).0 + adjust_all(tags, r).1)[k];
                &&& x.start < x.end
                &&& exists|j: int|
                    0 <= j < tags.len() && tags[j].start <= x.start && x.end <= tags[j].end
                        && same_format(x, #[trigger] tags[j])
            },
    decreases tags.len(),
{
    if tags.len() > 0 {
        let init = tags.drop_last();
        assert forall|i: int| 0 <= i < init.len() implies (#[trigger] init[i]).start < init[i].end by {
            assert(init[i] == tags[i]);
        }
        lemma_adjust_origin(init, r);
        let prev = adjust_all(init, r);
        let cur = adjust_all(tags, r);
        let all0 = prev.0 + prev.1;
        let all = cur.0 + cur.1;
        let t = tags.last();
        let lj = tags.len() - 1;
        assert(t == tags[lj]);
        assert forall|k: int| 0 <= k < all.len() implies {
            let x = #[trigger] all[k];
            &&& x.start < x.end
            &&& exists|j: int|
                0 <= j < tags.len() && tags[j].start <= x.start && x.end <= tags[j].end && same_format(
                    x,
                    #[trigger] tags[j],
                )
        } by {
            let x = all[k];
            // Where x comes from: a piece of an earlier tag, or of the last one.
            let from_prev = if spans_overlap(span(t), r) {
                let a = adjust_tag(t, r);
                if k < prev.0.len() {
                    Some(k)
                } else if k < prev.0.len() + opt_seq(a.0).len() {
                    None
                } else if k < prev.0.len() + opt_seq(a.0).len() + prev.1.len() {
                    Some(k - opt_seq(a.0).len())
                } else {
                    None
                }
            } else {
                if k < prev.0.len() {
                    Some(k)
                } else if k == prev.0.len() {
                    None
                } else {
                    Some(k - 1)
                }
            };
            match from_prev {
                Some(k0) => {
                    assert(all[k] == all0[k0]);
                    let y = all0[k0];
                    let j = choose|j: int|
                        0 <= j < init.len() && init[j].start <= y.start && y.end <= init[j].end
                            && same_format(y, #[trigger] init[j]);
                    assert(tags[j] == init[j]);
                },
                None => {
                    assert(tags[lj].start <= x.start && x.end <= tags[lj].end && same_format(x, tags[lj]));
                },
            }
        }
    }
}

#[verifier::rlimit(60)]
/// Writing over a range keeps the tags a tiling of the buffer, sorted by
/// start: exactly one tag covers the range, holding just the range and the
/// cursor's format, and every position outside the range keeps the format
/// that it had.
pub proof fn lemma_push_range_keeps_tiling(tags: Seq<TagModel>, cursor: CursorModel, r: (int, int))
    requires
        tags_tile(tags),
        0 <= r.0 < r.1 <= usize::MAX,
    ensures
        ({
            let res = push_range_result(tags, cursor, r);
            &&& tags_tile(res)
            &&& forall|i: int, j: int| 0 <= i < j < res.len() ==> res[i].start < res[j].start
            &&& res.contains(cursor_tag(cursor, r))
            &&& forall|i: int|
                0 <= i < res.len() && spans_overlap(span(#[trigger] res[i]), r) ==> res[i] == cursor_tag(
                    cursor,
                    r,
                )
            &&& forall|p: int, i: int, j: int|
                #![trigger covers(res[i], p), covers(tags[j], p)]
                0 <= p < usize::MAX && !(r.0 <= p < r.1) && 0 <= i < res.len() && 0 <= j < tags.len()
                    && covers(res[i], p) && covers(tags[j], p) ==> same_format(
                    res[i],
                    tags[j],
                )
        }),
{
    let a = adjust_all(tags, r);
    let ct = cursor_tag(cursor, r);
    let x = (a.0 + a.1).push(ct);
    let res = push_range_result(tags, cursor, r);
    assert(res == sort_by_start(x));
    lemma_written_range_takes_cursor_format(tags, cursor, r);
    lemma_sort_sorted(x);
    lemma_sort_by_start_elems(x);
    lemma_adjust_origin(tags, r);
    assert(x.drop_last() =~= a.0 + a.1);
    assert forall|i: int| 0 <= i < res.len() implies (#[trigger] res[i]).start < res[i].end by {
        let k = choose|k: int| 0 <= k < x.len() && x[k] == res[i];
        if k < (a.0 + a.1).len() {
            assert(x[k] == (a.0 + a.1)[k]);
        }
    }
    assert forall|p: int| 0 <= p < usize::MAX implies #[trigger] cover_count(res, p) == 1 by {
        lemma_count_sort(x, p);
        lemma_count_add(a.0 + a.1, seq![ct], p);
        assert((a.0 + a.1) + seq![ct] =~= x);
        lemma_count_single(ct, p);
        lemma_count_adjust(tags, r, p);
        lemma_chain_count(tags, p);
    }
    lemma_once_covered_tiles(res);
    assert forall|p: int, i: int, j: int|
        #![trigger covers(res[i], p), covers(tags[j], p)]
        0 <= p < usize::MAX && !(r.0 <= p < r.1) && 0 <= i < res.len() && 0 <= j < tags.len() && covers(
            res[i],
            p,
        ) && covers(tags[j], p) implies same_format(res[i], tags[j]) by {
        let k = choose|k: int| 0 <= k < x.len() && x[k] == res[i];
        assert(k < (a.0 + a.1).len());
        assert(x[k] == (a.0 + a.1)[k]);
        let y = (a.0 + a.1)[k];
        let j2 = choose|j2: int|
            0 <= j2 < tags.len() && tags[j2].start <= y.start && y.end <= tags[j2].end && same_format(
                y,
                #[trigger] tags[j2],
            );
        if j2 != j {
            lemma_chain_count(tags, p);
            lemma_count_positive(tags, p, j);
            assert(covers(tags[j2], p));
        }
    }
}

/// Making room for `len` positions at `at` keeps the tags a tiling of the
/// buffer, each tag keeping its format, unless the last tag would be moved
/// to the very end and left empty.
pub proof fn lemma_insert_adjustment_keeps_tiling(tags: Seq<TagModel>, at: int, len: int)
    requires
        tags_tile(tags),
        0 <= at,
        0 <= len,
        forall|i: int| 0 <= i < tags.len() ==> shift_fits(#[trigger] tags[i], len),
        forall|i: int|
            0 <= i < tags.len() && (#[trigger] tags[i]).end == usize::MAX && tags[i].start > at
                ==> tags[i].start + len < usize::MAX,
    ensures
        ({
            let res = Seq::new(tags.len(), |i: int| adjust_for_insert(tags[i], at, len));
            &&& tags_tile(res)
            &&& forall|i: int| 0 <= i < res.len() ==> same_format(#[trigger] res[i], tags[i])
        }),
{
    let res = Seq::new(tags.len(), |i: int| adjust_for_insert(tags[i], at, len));
    assert forall|i: int| 0 <= i < res.len() implies (#[trigger] res[i]).start < res[i].end by {
        assert(tags[i].start < tags[i].end);
    }
    assert forall|i: int| 0 <= i < res.len() - 1 implies #[trigger] res[i].end == res[i + 1].start by {
        assert(tags[i].end == tags[i + 1].start);
        assert(tags[i + 1].start < tags[i + 1].end);
        assert(tags[i].start < tags[i].end);
    }
    assert(res.last() == res[res.len() - 1]);
    assert(tags.last() == tags[tags.len() - 1]);
}

/// Where a tag that started at `s` starts after the positions of `r` are
/// deleted.
pub open spec fn start_after_delete(s: int, r: (int, int)) -> int {
    if s < r.0 {
        s
    } else if s < r.1 {
        r.0
    } else {
        s - (r.1 - r.0)
    }
}

/// The position before the deletion of `r` that position `p` shows after
/// it, kept below `usize::MAX`.
pub open spec fn position_before_delete(p: int, r: (int, int)) -> int {
    let q = if p < r.0 {
        p
    } else {
        p + (r.1 - r.0)
    };
    if q < usize::MAX {
        q
    } else {
        usize::MAX - 1
    }
}

proof fn lemma_delete_tag_count(t: TagModel, r: (int, int), p: int)
    requires
        t.start < t.end,
        0 <= r.0 <= r.1 < usize::MAX,
        0 <= p < usize::MAX,
    ensures
        cover_count(opt_seq(delete_from_tag(t, r)), p) == if covers(t, position_before_delete(p, r)) {
            1nat
        } else {
            0nat
        },
        delete_from_tag(t, r) matches Some(n) ==> n.start < n.end && n.start == start_after_delete(
            t.start as int,
            r,
        ) && same_format(n, t),
{
    lemma_count_opt(delete_from_tag(t, r), p);
}

proof fn lemma_delete_count(tags: Seq<TagModel>, r: (int, int), p: int)
    requires
        forall|i: int| 0 <= i < tags.len() ==> (#[trigger] tags[i]).start < tags[i].end,
        0 <= r.0 <= r.1 < usize::MAX,
        0 <= p < usize::MAX,
    ensures
        cover_count(delete_range_result(tags, r), p) == cover_count(tags, position_before_delete(p, r)),
    decreases tags.len(),
{
    if tags.len() > 0 {
        let init = tags.drop_last();
        assert forall|i: int| 0 <= i < init.len() implies (#[trigger] init[i]).start < init[i].end by {
            assert(init[i] == tags[i]);
        }
        lemma_delete_count(init, r, p);
        assert(tags.last() == tags[tags.len() - 1]);
        lemma_delete_tag_count(tags.last(), r, p);
        lemma_count_add(delete_range_result(init, r), opt_seq(delete_from_tag(tags.last(), r)), p);
    }
}

proof fn lemma_delete_origin(tags: Seq<TagModel>, r: (int, int))
    requires
        forall|i: int| 0 <= i < tags.len() ==> (#[trigger] tags[i]).start < tags[i].end,
        0 <= r.0 <= r.1 < usize::MAX,
    ensures
        forall|k: int|
            0 <= k < delete_range_result(tags, r).len() ==> {
                let n = #[trigger] delete_range_result(tags, r)[k];
                &&& n.start < n.end
                &&& exists|j: int|
                    0 <= j < tags.len() && n.start == start_after_delete((#[trigger] tags[j]).start as int, r)
                        && same_format(n, tags[j]) && delete_from_tag(tags[j], r) == Some(n)
            },
    decreases tags.len(),
{
    if tags.len() > 0 {
        let init = tags.drop_last();
        assert forall|i: int| 0 <= i < init.len() implies (#[trigger] init[i]).start < init[i].end by {
            assert(init[i] == tags[i]);
        }
        lemma_delete_origin(init, r);
        let l = tags.len() - 1;
        assert(tags.last() == tags[l]);
        lemma_delete_tag_count(tags[l], r, 0);
        let prev = delete_range_result(init, r);
        let res = delete_range_result(tags, r);
        assert forall|k: int| 0 <= k < res.len() implies {
            let n = #[trigger] res[k];
            &&& n.start < n.end
            &&& exists|j: int|
                0 <= j < tags.len() && n.start == start_after_delete((#[trigger] tags[j]).start as int, r)
                    && same_format(n, tags[j]) && delete_from_tag(tags[j], r) == Some(n)
        } by {
            if k < prev.len() {
                assert(res[k] == prev[k]);
                let j = choose|j: int|
                    0 <= j < init.len() && prev[k].start == start_after_delete(
                        (#[trigger] init[j]).start as int,
                        r,
                    ) && same_format(prev[k], init[j]) && delete_from_tag(init[j], r) == Some(prev[k]);
                assert(tags[j] == init[j]);
            } else {
                assert(res[k] == delete_from_tag(tags[l], r).unwrap());
            }
        }
    }
}

proof fn lemma_delete_sorted(tags: Seq<TagModel>, r: (int, int))
    requires
        forall|i: int| 0 <= i < tags.len() ==> (#[trigger] tags[i]).start < tags[i].end,
        sorted_by_start(tags),
        0 <= r.0 <= r.1 < usize::MAX,
    ensures
        sorted_by_start(delete_range_result(tags, r)),
    decreases tags.len(),
{
    if tags.len() > 0 {
        let init = tags.drop_last();
        assert forall|i: int| 0 <= i < init.len() implies (#[trigger] init[i]).start < init[i].end by {
            assert(init[i] == tags[i]);
        }
        assert(sorted_by_start(init)) by {
            assert forall|i: int, j: int| 0 <= i < j < init.len() implies init[i].start <= init[j].start by {
                assert(init[i] == tags[i] && init[j] == tags[j]);
            }
        }
        lemma_delete_sorted(init, r);
        lemma_delete_origin(init, r);
        let l = tags.len() - 1;
        assert(tags.last() == tags[l]);
        lemma_delete_tag_count(tags[l], r, 0);
        let prev = delete_range_result(init, r);
        let res = delete_range_result(tags, r);
        assert forall|i: int, j: int| 0 <= i < j < res.len() implies res[i].start <= res[j].start by {
            if j < prev.len() {
                assert(res[i] == prev[i] && res[j] == prev[j]);
            } else {
                assert(res[i] == prev[i]);
                assert(res[j] == delete_from_tag(tags[l], r).unwrap());
                let k = choose|k: int|
                    0 <= k < init.len() && prev[i].start == start_after_delete(
                        (#[trigger] init[k]).start as int,
                        r,
                    ) && same_format(prev[i], init[k]);
                assert(init[k] == tags[k]);
                assert(tags[k].start <= tags[l].start);
            }
        }
    }
}

#[verifier::rlimit(60)]
/// Deleting a range that ends before `usize::MAX` keeps the tags a tiling of
/// the buffer, sorted by start, and every position shows the format of the
/// position it was before the deletion: itself before the range, the
/// deleted length further on after it (the last position at the end).
pub proof fn lemma_delete_keeps_tiling(tags: Seq<TagModel>, r: (int, int))
    requires
        tags_tile(tags),
        0 <= r.0 <= r.1 < usize::MAX,
    ensures
        ({
            let res = delete_range_result(tags, r);
            &&& tags_tile(res)
            &&& forall|i: int, j: int| 0 <= i < j < res.len() ==> res[i].start < res[j].start
            &&& forall|p: int| 0 <= p < usize::MAX ==> #[trigger] cover_count(res, p) == 1
            &&& forall|p: int| 0 <= p < usize::MAX ==> cover_count(tags, #[trigger] position_before_delete(p, r)) == 1
            &&& forall|p: int, i: int, j: int|
                #![trigger covers(res[i], p), covers(tags[j], position_before_delete(p, r))]
                0 <= p < usize::MAX && 0 <= i < res.len() && 0 <= j < tags.len() && covers(res[i], p)
                    && covers(tags[j], position_before_delete(p, r)) ==> same_format(res[i], tags[j])
        }),
{
    let res = delete_range_result(tags, r);
    assert(sorted_by_start(tags)) by {
        assert forall|i: int, j: int| 0 <= i < j < tags.len() implies tags[i].start <= tags[j].start by {
            tiled_starts_increase(tags, i, j);
        }
    }
    assert(sorted_by_start(res)) by {
        lemma_delete_sorted(tags, r);
    }
    assert(forall|i: int| 0 <= i < res.len() ==> (#[trigger] res[i]).start < res[i].end) by {
        lemma_delete_origin(tags, r);
    }
    assert(forall|p: int| 0 <= p < usize::MAX ==> #[trigger] cover_count(tags, position_before_delete(p, r))
        == 1) by {
        assert forall|p: int| 0 <= p < usize::MAX implies #[trigger] cover_count(
            tags,
            position_before_delete(p, r),
        ) == 1 by {
            lemma_chain_count(tags, position_before_delete(p, r));
        }
    }
    assert(forall|p: int| 0 <= p < usize::MAX ==> #[trigger] cover_count(res, p) == 1) by {
        assert forall|p: int| 0 <= p < usize::MAX implies #[trigger] cover_count(res, p) == 1 by {
            lemma_delete_count(tags, r, p);
            assert(cover_count(tags, position_before_delete(p, r)) == 1);
        }
    }
    lemma_once_covered_tiles(res);
    assert forall|p: int, i: int, j: int|
        #![trigger covers(res[i], p), covers(tags[j], position_before_delete(p, r))]
        0 <= p < usize::MAX && 0 <= i < res.len() && 0 <= j < tags.len() && covers(res[i], p) && covers(
            tags[j],
            position_before_delete(p, r),
        ) implies same_format(res[i], tags[j]) by {
        lemma_delete_keeps_format(tags, r, p, i, j);
    }
}

proof fn lemma_delete_keeps_format(tags: Seq<TagModel>, r: (int, int), p: int, i: int, j: int)
    requires
        tags_tile(tags),
        0 <= r.0 <= r.1 < usize::MAX,
        0 <= p < usize::MAX,
        0 <= i < delete_range_result(tags, r).len(),
        0 <= j < tags.len(),
        covers(delete_range_result(tags, r)[i], p),
        covers(tags[j], position_before_delete(p, r)),
    ensures
        same_format(delete_range_result(tags, r)[i], tags[j]),
{
    lemma_delete_origin(tags, r);
    let n = delete_range_result(tags, r)[i];
    let j2 = choose|j2: int|
        0 <= j2 < tags.len() && n.start == start_after_delete((#[trigger] tags[j2]).start as int, r)
            && same_format(n, tags[j2]) && delete_from_tag(tags[j2], r) == Some(n);
    lemma_delete_tag_count(tags[j2], r, p);
    lemma_count_single(n, p);
    let q = position_before_delete(p, r);
    if j2 != j {
        lemma_chain_count(tags, q);
        lemma_two_covers(tags, q, j, j2);
    }
}

/// In a tiling, later tags start later.
proof fn tiled_starts_increase(tags: Seq<TagModel>, i: int, j: int)
    requires
        tags_tile(tags),
        0 <= i < j < tags.len(),
    ensures
        tags[i].start < tags[j].start,
    decreases j - i,
{
    assert(tags[j - 1].end == tags[j].start);
    assert(tags[j - 1].start < tags[j - 1].end);
    if i < j - 1 {
        tiled_starts_increase(tags, i, j - 1);
    }
}

} // verus!
