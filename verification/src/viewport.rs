//! Viewport layout for the chat list: the segment index (one segment per
//! item, plus spacing gaps after messages), and the measurement of which
//! rows of which segments are visible at a scroll offset.
//!
//! Item heights come from the rendered widgets; this module does the
//! arithmetic that places them.

use vstd::prelude::*;
use crate::chat_list_state::{
    ChatListState, ScrollTarget, ViewMode, VisibleRange, clamp_offset, max_offset_of, sat_sub,
};

verus! {

/// Per-item height cache for the two view modes.
#[derive(Debug, Clone, Copy)]
pub struct HeightCache {
    pub compact: Option<usize>,
    pub detailed: Option<usize>,
    pub last_width: u16,
}

impl HeightCache {
    pub fn new() -> (c: Self)
        ensures
            c.compact is None,
            c.detailed is None,
            c.last_width == 0,
    {
        Self { compact: None, detailed: None, last_width: 0 }
    }

    /// Forget the cached heights when the width or the mode changed.
    pub fn invalidate(&mut self, width_changed: bool, mode_changed: bool)
        ensures
            (width_changed || mode_changed) ==> final(self).compact is None
                && final(self).detailed is None,
            !(width_changed || mode_changed) ==> final(self).compact == old(self).compact
                && final(self).detailed == old(self).detailed,
            final(self).last_width == old(self).last_width,
    {
        if width_changed {
            self.compact = None;
            self.detailed = None;
        } else if mode_changed {
            self.compact = None;
            self.detailed = None;
        }
    }

    pub open spec fn height_for(&self, mode: ViewMode) -> Option<usize> {
        match mode {
            ViewMode::Compact => self.compact,
            ViewMode::Detailed => self.detailed,
        }
    }

    pub fn get_height(&self, mode: ViewMode) -> (h: Option<usize>)
        ensures
            h == self.height_for(mode),
    {
        match mode {
            ViewMode::Compact => self.compact,
            ViewMode::Detailed => self.detailed,
        }
    }

    pub fn set_height(&mut self, mode: ViewMode, height: usize, width: u16)
        ensures
            final(self).height_for(mode) == Some(height),
            mode == ViewMode::Compact ==> final(self).detailed == old(self).detailed,
            mode == ViewMode::Detailed ==> final(self).compact == old(self).compact,
            final(self).last_width == width,
    {
        self.last_width = width;
        match mode {
            ViewMode::Compact => self.compact = Some(height),
            ViewMode::Detailed => self.detailed = Some(height),
        }
    }
}

/// The positions below `n` whose cache holds no height for `mode`, in
/// order: the items a rebuild measures for `mode`.
pub open spec fn unmeasured_upto(caches: Seq<HeightCache>, mode: ViewMode, n: int) -> Seq<usize>
    decreases n,
{
    if n <= 0 {
        Seq::empty()
    } else {
        let before = unmeasured_upto(caches, mode, n - 1);
        if caches[n - 1].height_for(mode) is None {
            before.push((n - 1) as usize)
        } else {
            before
        }
    }
}

/// The items whose height for `mode` is not cached, and so has to be
/// measured before the segment index is rebuilt.
pub fn unmeasured_items(caches: &[HeightCache], mode: ViewMode) -> (r: Vec<usize>)
    ensures
        r@ == unmeasured_upto(caches@, mode, caches@.len() as int),
{
    let mut r: Vec<usize> = Vec::new();
    let mut i: usize = 0;
    while i < caches.len()
        invariant
            i <= caches.len(),
            r@ == unmeasured_upto(caches@, mode, i as int),
        decreases caches.len() - i,
    {
        if caches[i].get_height(mode).is_none() {
            r.push(i);
        }
        i = i + 1;
    }
    r
}

/// The height of every item for `mode`, read from the caches; `None` when
/// some item has none cached yet.
pub fn cached_heights(caches: &[HeightCache], mode: ViewMode) -> (r: Option<Vec<usize>>)
    ensures
        match r {
            Some(h) => h@.len() == caches@.len() && forall|i: int|
                0 <= i < caches@.len() ==> Some(#[trigger] h@[i]) == caches@[i].height_for(mode),
            None => exists|i: int| 0 <= i < caches@.len() && (#[trigger] caches@[i]).height_for(mode) is None,
        },
{
    let mut h: Vec<usize> = Vec::new();
    let mut i: usize = 0;
    while i < caches.len()
        invariant
            i <= caches.len(),
            h@.len() == i,
            forall|j: int| 0 <= j < i ==> Some(#[trigger] h@[j]) == caches@[j].height_for(mode),
        decreases caches.len() - i,
    {
        match caches[i].get_height(mode) {
            Some(x) => h.push(x),
            None => {
                assert(caches@[i as int].height_for(mode) is None);
                return None;
            },
        }
        i = i + 1;
    }
    Some(h)
}

proof fn lemma_all_unmeasured(caches: Seq<HeightCache>, mode: ViewMode, n: int)
    requires
        0 <= n <= caches.len(),
        caches.len() <= usize::MAX,
        forall|i: int| 0 <= i < caches.len() ==> (#[trigger] caches[i]).height_for(mode) is None,
    ensures
        unmeasured_upto(caches, mode, n) == Seq::new(n as nat, |i: int| i as usize),
    decreases n,
{
    if n > 0 {
        lemma_all_unmeasured(caches, mode, n - 1);
        assert(unmeasured_upto(caches, mode, n) =~= Seq::new(n as nat, |i: int| i as usize));
    } else {
        assert(unmeasured_upto(caches, mode, n) =~= Seq::new(n as nat, |i: int| i as usize));
    }
}

/// When the width or the view mode changed, every item's cached heights are
/// invalidated (`after` is what invalidation left of the caches), and then
/// every item is measured again for the mode shown, in order.
pub proof fn law_geometry_change_measures_every_item(
    after: Seq<HeightCache>,
    width_changed: bool,
    mode_changed: bool,
    mode: ViewMode,
)
    requires
        width_changed || mode_changed,
        after.len() <= usize::MAX,
        forall|i: int|
            0 <= i < after.len() ==> (#[trigger] after[i]).compact is None && after[i].detailed is None,
    ensures
        unmeasured_upto(after, mode, after.len() as int) == Seq::new(after.len(), |i: int| i as usize),
{
    assert forall|i: int| 0 <= i < after.len() implies (#[trigger] after[i]).height_for(mode) is None by {}
    lemma_all_unmeasured(after, mode, after.len() as int);
}

/// The bounds of the slice of a widget's `len` rendered lines asked for as
/// `start..end`: both cut to the lines there are, and the end never before
/// the start.
pub fn line_slice_bounds(len: usize, start: usize, end: usize) -> (r: (usize, usize))
    ensures
        r.0 == if start < len { start } else { len },
        r.1 == if end < r.0 { r.0 } else if end < len { end } else { len },
        r.0 <= r.1 <= len,
{
    let bounded_start = if start < len { start } else { len };
    let capped_end = if end < len { end } else { len };
    let bounded_end = if capped_end > bounded_start { capped_end } else { bounded_start };
    (bounded_start, bounded_end)
}

/// What a segment of the chat list holds.
#[derive(Debug, Clone, Copy, PartialEq, Eq, Structural)]
pub enum RowKind {
    /// The item with this index.
    Item { idx: usize },
    /// Blank spacing after a message.
    Gap,
}

/// A vertical span of the content.
#[derive(Debug, Clone, Copy)]
pub struct Segment {
    pub kind: RowKind,
    pub start_y: usize,
    pub height: usize,
}

/// The visible part of one segment.
#[derive(Debug, Clone, Copy)]
pub struct RowMetrics {
    pub kind: RowKind,
    /// Number of rows to render in the viewport.
    pub render_h: usize,
    /// First line of the segment that is visible.
    pub first_visible_line: usize,
}

/// The segment index of the chat list.
#[derive(Debug, Clone)]
pub struct ViewportLayout {
    pub segments: Vec<Segment>,
    /// Top row of each item.
    pub item_start_y: Vec<usize>,
    pub total_content_height: usize,
}

/// Spacing inserted after item `idx`: after a message that is not the last item.
pub open spec fn gap_after(n: nat, is_message: Seq<bool>, spacing: nat, idx: int) -> nat {
    if idx + 1 < n && is_message[idx] && spacing > 0 {
        spacing
    } else {
        0
    }
}

/// Top row of item `idx`: the heights and gaps of the items before it.
pub open spec fn item_top(heights: Seq<usize>, is_message: Seq<bool>, spacing: nat, idx: int) -> nat
    decreases idx,
{
    if idx <= 0 {
        0
    } else {
        item_top(heights, is_message, spacing, idx - 1) + heights[idx - 1] as nat + gap_after(
            heights.len(),
            is_message,
            spacing,
            idx - 1,
        )
    }
}

/// The segments of items `idx..`.
pub open spec fn layout_from(heights: Seq<usize>, is_message: Seq<bool>, spacing: nat, idx: int) -> Seq<
    Segment,
>
    decreases heights.len() - idx,
{
    if idx < 0 || idx >= heights.len() {
        Seq::empty()
    } else {
        let top = item_top(heights, is_message, spacing, idx);
        let item = Segment {
            kind: RowKind::Item { idx: idx as usize },
            start_y: top as usize,
            height: heights[idx],
        };
        let g = gap_after(heights.len(), is_message, spacing, idx);
        let head = if g > 0 {
            seq![
                item,
                Segment {
                    kind: RowKind::Gap,
                    start_y: (top + heights[idx]) as usize,
                    height: g as usize,
                },
            ]
        } else {
            seq![item]
        };
        head + layout_from(heights, is_message, spacing, idx + 1)
    }
}

/// Row just below a segment.
pub open spec fn bottom(s: Segment) -> int {
    s.start_y + s.height
}

/// The segments cover rows `from..to` one after the other.
pub open spec fn tiles(segs: Seq<Segment>, from: int, to: int) -> bool
    decreases segs.len(),
{
    if segs.len() == 0 {
        from == to
    } else {
        segs[0].start_y == from && tiles(segs.drop_first(), from + segs[0].height, to)
    }
}

impl ViewportLayout {
    /// The segments tile the content from its top to its total height.
    pub open spec fn wf(&self) -> bool {
        tiles(self.segments@, 0, self.total_content_height as int)
    }

    pub fn new() -> (l: Self)
        ensures
            l.wf(),
            l.segments@.len() == 0,
            l.item_start_y@.len() == 0,
            l.total_content_height == 0,
    {
        ViewportLayout { segments: Vec::new(), item_start_y: Vec::new(), total_content_height: 0 }
    }
}

proof fn lemma_item_top_monotone(
    heights: Seq<usize>,
    is_message: Seq<bool>,
    spacing: nat,
    i: int,
    j: int,
)
    requires
        0 <= i <= j,
    ensures
        item_top(heights, is_message, spacing, i) <= item_top(heights, is_message, spacing, j),
    decreases j - i,
{
    if i < j {
        lemma_item_top_monotone(heights, is_message, spacing, i, j - 1);
    }
}

proof fn lemma_layout_tiles(heights: Seq<usize>, is_message: Seq<bool>, spacing: nat, idx: int)
    requires
        0 <= idx <= heights.len(),
        item_top(heights, is_message, spacing, heights.len() as int) <= usize::MAX,
    ensures
        tiles(
            layout_from(heights, is_message, spacing, idx),
            item_top(heights, is_message, spacing, idx) as int,
            item_top(heights, is_message, spacing, heights.len() as int) as int,
        ),
    decreases heights.len() - idx,
{
    if idx < heights.len() {
        lemma_layout_tiles(heights, is_message, spacing, idx + 1);
        lemma_item_top_monotone(heights, is_message, spacing, idx + 1, heights.len() as int);
        let top = item_top(heights, is_message, spacing, idx);
        let rest = layout_from(heights, is_message, spacing, idx + 1);
        let all = layout_from(heights, is_message, spacing, idx);
        let g = gap_after(heights.len(), is_message, spacing, idx);
        if g > 0 {
            assert(all.drop_first().drop_first() =~= rest);
            assert(tiles(all.drop_first(), top + heights[idx], item_top(heights, is_message, spacing, heights.len() as int) as int));
        } else {
            assert(all.drop_first() =~= rest);
        }
    }
}

/// The segment index of items with the given heights, where `is_message`
/// tells which items are messages and `spacing` is the gap after each message.
pub open spec fn layout_of(heights: Seq<usize>, is_message: Seq<bool>, spacing: nat) -> Seq<Segment> {
    layout_from(heights, is_message, spacing, 0)
}

impl ViewportLayout {
    /// Rebuild the segment index for the given item heights.
    pub fn rebuild_segment_index(&mut self, heights: &[usize], is_message: &[bool], spacing: usize)
        requires
            heights.len() == is_message.len(),
            item_top(heights@, is_message@, spacing as nat, heights.len() as int) <= usize::MAX,
        ensures
            final(self).wf(),
            final(self).segments@ == layout_of(heights@, is_message@, spacing as nat),
            final(self).item_start_y@.len() == heights.len(),
            forall|i: int|
                0 <= i < heights.len() ==> final(self).item_start_y@[i] as int == item_top(
                    heights@,
                    is_message@,
                    spacing as nat,
                    i,
                ),
            final(self).total_content_height == item_top(
                heights@,
                is_message@,
                spacing as nat,
                heights.len() as int,
            ),
    {
        let ghost h = heights@;
        let ghost m = is_message@;
        let ghost sp = spacing as nat;
        let ghost n = heights.len() as int;
        self.segments = Vec::new();
        self.item_start_y = Vec::new();
        self.total_content_height = 0;
        let mut cursor: usize = 0;
        let items_len = heights.len();
        let mut idx: usize = 0;
        while idx < items_len
            invariant
                items_len == heights.len() == is_message.len(),
                h == heights@,
                m == is_message@,
                sp == spacing as nat,
                n == items_len,
                item_top(h, m, sp, n) <= usize::MAX,
                idx <= items_len,
                cursor == item_top(h, m, sp, idx as int),
                self.segments@ + layout_from(h, m, sp, idx as int) == layout_of(h, m, sp),
                self.item_start_y@.len() == idx,
                forall|i: int|
                    0 <= i < idx ==> self.item_start_y@[i] as int == item_top(h, m, sp, i),
            decreases items_len - idx,
        {
            proof {
                lemma_item_top_monotone(h, m, sp, idx + 1, n);
            }
            let height = heights[idx];
            self.item_start_y.push(cursor);
            let ghost before = self.segments@;
            self.segments.push(Segment { kind: RowKind::Item { idx }, start_y: cursor, height });
            let bottom_y = cursor + height;
            if idx + 1 < items_len && is_message[idx] && spacing > 0 {
                self.segments.push(Segment { kind: RowKind::Gap, start_y: bottom_y, height: spacing });
                cursor = bottom_y + spacing;
            } else {
                cursor = bottom_y;
            }
            proof {
                let rest = layout_from(h, m, sp, idx + 1);
                assert(self.segments@ + rest =~= before + layout_from(h, m, sp, idx as int));
            }
            idx = idx + 1;
        }
        proof {
            assert(layout_from(h, m, sp, idx as int) =~= Seq::<Segment>::empty());
            assert(self.segments@ =~= layout_of(h, m, sp));
            lemma_layout_tiles(h, m, sp, 0);
        }
        self.total_content_height = cursor;
    }
}


pub open spec fn min_int(a: int, b: int) -> int {
    if a <= b { a } else { b }
}

pub open spec fn max_int(a: int, b: int) -> int {
    if a >= b { a } else { b }
}

/// Number of rows of `s` inside the window `o..v`.
pub open spec fn visible_height(s: Segment, o: int, v: int) -> int {
    let lo = max_int(s.start_y as int, o);
    let hi = min_int(bottom(s), v);
    if hi > lo { hi - lo } else { 0 }
}

/// The visible part of `s` in the window `o..v`.
pub open spec fn row_of(s: Segment, o: int, v: int) -> RowMetrics {
    RowMetrics {
        kind: s.kind,
        render_h: visible_height(s, o, v) as usize,
        first_visible_line: sat_sub(o, s.start_y as int) as usize,
    }
}

/// The rows of the segments that reach into the window `o..v`, in order.
pub open spec fn visible_rows(segs: Seq<Segment>, o: int, v: int) -> Seq<RowMetrics>
    decreases segs.len(),
{
    if segs.len() == 0 {
        Seq::empty()
    } else {
        let before = visible_rows(segs.drop_last(), o, v);
        if visible_height(segs.last(), o, v) > 0 {
            before.push(row_of(segs.last(), o, v))
        } else {
            before
        }
    }
}

/// An item segment with rows in the window.
pub open spec fn shows_item(s: Segment, o: int, v: int) -> bool {
    s.kind is Item && visible_height(s, o, v) > 0
}

/// The first segment that shows an item.
pub open spec fn first_shown(segs: Seq<Segment>, o: int, v: int) -> Option<Segment>
    decreases segs.len(),
{
    if segs.len() == 0 {
        None
    } else {
        match first_shown(segs.drop_last(), o, v) {
            Some(x) => Some(x),
            None => if shows_item(segs.last(), o, v) {
                Some(segs.last())
            } else {
                None
            },
        }
    }
}

/// The last segment that shows an item.
pub open spec fn last_shown(segs: Seq<Segment>, o: int, v: int) -> Option<Segment>
    decreases segs.len(),
{
    if segs.len() == 0 {
        None
    } else if shows_item(segs.last(), o, v) {
        Some(segs.last())
    } else {
        last_shown(segs.drop_last(), o, v)
    }
}

pub open spec fn clamp_u16(x: int) -> u16 {
    if x > u16::MAX { u16::MAX } else { x as u16 }
}

pub open spec fn item_index(k: RowKind) -> usize {
    match k {
        RowKind::Item { idx } => idx,
        RowKind::Gap => 0,
    }
}

/// The items shown in the window `o..v`: first and last index, and their
/// first and last row relative to the top of the viewport.
pub open spec fn range_of(segs: Seq<Segment>, o: int, v: int) -> Option<VisibleRange> {
    match (first_shown(segs, o, v), last_shown(segs, o, v)) {
        (Some(f), Some(l)) => Some(
            VisibleRange {
                first_index: item_index(f.kind),
                last_index: item_index(l.kind),
                first_y: clamp_u16(sat_sub(f.start_y as int, o)),
                last_y: clamp_u16(sat_sub(l.start_y + visible_height(l, o, v) - 1, o)),
            },
        ),
        _ => None,
    }
}

/// Facts about segments that tile `from..to`, by index.
pub proof fn lemma_tiles_ordered(segs: Seq<Segment>, from: int, to: int)
    requires
        tiles(segs, from, to),
    ensures
        from <= to,
        forall|k: int| 0 <= k < segs.len() ==> from <= #[trigger] segs[k].start_y && bottom(segs[k]) <= to,
        forall|i: int, j: int| 0 <= i < j < segs.len() ==> bottom(#[trigger] segs[i]) <= #[trigger] segs[j].start_y,
        segs.len() > 0 ==> bottom(segs.last()) == to,
    decreases segs.len(),
{
    if segs.len() > 0 {
        let rest = segs.drop_first();
        lemma_tiles_ordered(rest, from + segs[0].height, to);
        assert forall|k: int| 0 <= k < segs.len() implies from <= #[trigger] segs[k].start_y
            && bottom(segs[k]) <= to by {
            if k > 0 {
                assert(segs[k] == rest[k - 1]);
            }
        }
        assert forall|i: int, j: int| 0 <= i < j < segs.len() implies bottom(#[trigger] segs[i])
            <= #[trigger] segs[j].start_y by {
            assert(segs[j] == rest[j - 1]);
            if i > 0 {
                assert(segs[i] == rest[i - 1]);
            }
        }
        assert(tiles(rest, from + segs[0].height, to));
        if rest.len() > 0 {
            assert(segs.last() == rest.last());
        } else {
            assert(from + segs[0].height == to);
            assert(segs.last() == segs[0]);
        }
    }
}

proof fn lemma_rows_concat(a: Seq<Segment>, b: Seq<Segment>, o: int, v: int)
    ensures
        visible_rows(a + b, o, v) == visible_rows(a, o, v) + visible_rows(b, o, v),
        (first_shown(a, o, v) is None) ==> first_shown(a + b, o, v) == first_shown(b, o, v),
        (first_shown(a, o, v) is Some) ==> first_shown(a + b, o, v) == first_shown(a, o, v),
        (last_shown(b, o, v) is None) ==> last_shown(a + b, o, v) == last_shown(a, o, v),
        (last_shown(b, o, v) is Some) ==> last_shown(a + b, o, v) == last_shown(b, o, v),
    decreases b.len(),
{
    if b.len() == 0 {
        assert(a + b =~= a);
    } else {
        lemma_rows_concat(a, b.drop_last(), o, v);
        assert((a + b).drop_last() =~= a + b.drop_last());
        assert((a + b).last() == b.last());
    }
}

proof fn lemma_nothing_shown(segs: Seq<Segment>, o: int, v: int)
    requires
        forall|k: int| 0 <= k < segs.len() ==> visible_height(#[trigger] segs[k], o, v) == 0,
    ensures
        visible_rows(segs, o, v) == Seq::<RowMetrics>::empty(),
        first_shown(segs, o, v) is None,
        last_shown(segs, o, v) is None,
    decreases segs.len(),
{
    if segs.len() > 0 {
        lemma_nothing_shown(segs.drop_last(), o, v);
        assert(visible_height(segs[segs.len() - 1], o, v) == 0);
    }
}

/// Sum of the rendered heights of rows.
pub open spec fn rows_height(rows: Seq<RowMetrics>) -> int
    decreases rows.len(),
{
    if rows.len() == 0 {
        0
    } else {
        rows_height(rows.drop_last()) + rows.last().render_h
    }
}

proof fn lemma_rows_height_concat(a: Seq<RowMetrics>, b: Seq<RowMetrics>)
    ensures
        rows_height(a + b) == rows_height(a) + rows_height(b),
    decreases b.len(),
{
    if b.len() == 0 {
        assert(a + b =~= a);
    } else {
        lemma_rows_height_concat(a, b.drop_last());
        assert((a + b).drop_last() =~= a + b.drop_last());
    }
}

/// Rows of `0..x` inside the window `o..v`.
pub open spec fn covered(x: int, o: int, v: int) -> int {
    if min_int(x, v) > o { min_int(x, v) - o } else { 0 }
}

/// Segments tiling `from..to` show, in all, the rows of `from..to` that lie in the window.
pub proof fn lemma_rows_fill_window(segs: Seq<Segment>, from: int, to: int, o: int, v: int)
    requires
        tiles(segs, from, to),
        0 <= from,
        o <= v,
        forall|k: int| 0 <= k < segs.len() ==> visible_height(#[trigger] segs[k], o, v) <= usize::MAX,
    ensures
        rows_height(visible_rows(segs, o, v)) == covered(to, o, v) - covered(from, o, v),
    decreases segs.len(),
{
    if segs.len() > 0 {
        let rest = segs.drop_first();
        assert forall|k: int| 0 <= k < rest.len() implies visible_height(#[trigger] rest[k], o, v)
            <= usize::MAX by {
            assert(rest[k] == segs[k + 1]);
        }
        lemma_rows_fill_window(rest, from + segs[0].height, to, o, v);
        assert(segs =~= seq![segs[0]] + rest);
        assert(seq![segs[0]].drop_last() =~= Seq::<Segment>::empty());
        assert(seq![segs[0]].last() == segs[0]);
        assert(visible_rows(Seq::<Segment>::empty(), o, v) == Seq::<RowMetrics>::empty());
        assert(rows_height(Seq::<RowMetrics>::empty()) == 0);
        lemma_rows_concat(seq![segs[0]], rest, o, v);
        assert(visible_height(segs[0], o, v) <= usize::MAX);
        lemma_rows_height_concat(visible_rows(seq![segs[0]], o, v), visible_rows(rest, o, v));
        if visible_height(segs[0], o, v) > 0 {
            assert(visible_rows(seq![segs[0]], o, v) =~= Seq::<RowMetrics>::empty().push(row_of(segs[0], o, v)));
            assert(seq![row_of(segs[0], o, v)].drop_last() =~= Seq::<RowMetrics>::empty());
            assert(seq![row_of(segs[0], o, v)] =~= Seq::<RowMetrics>::empty().push(row_of(segs[0], o, v)));
        }
    }
}

proof fn lemma_skip_hidden_prefix(segs: Seq<Segment>, first: int, o: int, v: int)
    requires
        0 <= first <= segs.len(),
        forall|k: int| 0 <= k < first ==> bottom(#[trigger] segs[k]) <= o,
    ensures
        visible_rows(segs, o, v) == visible_rows(segs.subrange(first, segs.len() as int), o, v),
        range_of(segs, o, v) == range_of(segs.subrange(first, segs.len() as int), o, v),
{
    let pre = segs.subrange(0, first);
    let post = segs.subrange(first, segs.len() as int);
    assert forall|k: int| 0 <= k < pre.len() implies visible_height(#[trigger] pre[k], o, v) == 0 by {
        assert(pre[k] == segs[k]);
        assert(bottom(segs[k]) <= o);
    }
    lemma_nothing_shown(pre, o, v);
    assert(segs =~= pre + post);
    lemma_rows_concat(pre, post, o, v);
    assert(Seq::<RowMetrics>::empty() + visible_rows(post, o, v) =~= visible_rows(post, o, v));
    match last_shown(post, o, v) {
        Some(_) => {},
        None => {
            assert(last_shown(segs, o, v) == last_shown(pre, o, v));
        },
    }
}

impl ViewportLayout {
    /// Index of the first segment that ends below row `offset`.
    pub fn first_visible_segment_index(&self, offset: usize) -> (i: usize)
        requires
            self.wf(),
        ensures
            i <= self.segments@.len(),
            forall|k: int| 0 <= k < i ==> bottom(#[trigger] self.segments@[k]) <= offset,
            forall|k: int| i <= k < self.segments@.len() ==> bottom(#[trigger] self.segments@[k]) > offset,
    {
        proof {
            lemma_tiles_ordered(self.segments@, 0, self.total_content_height as int);
        }
        let ghost segs = self.segments@;
        let mut lo: usize = 0;
        let mut hi: usize = self.segments.len();
        while lo < hi
            invariant
                segs == self.segments@,
                lo <= hi <= segs.len(),
                forall|k: int| 0 <= k < segs.len() ==> bottom(#[trigger] segs[k]) <= self.total_content_height,
                forall|i: int, j: int| 0 <= i < j < segs.len() ==> bottom(#[trigger] segs[i]) <= #[trigger] segs[j].start_y,
                forall|k: int| 0 <= k < lo ==> bottom(#[trigger] segs[k]) <= offset,
                forall|k: int| hi <= k < segs.len() ==> bottom(#[trigger] segs[k]) > offset,
            decreases hi - lo,
        {
            let mid = lo + (hi - lo) / 2;
            let seg = self.segments[mid];
            if seg.start_y + seg.height <= offset {
                proof {
                    assert forall|k: int| 0 <= k < mid + 1 implies bottom(#[trigger] segs[k]) <= offset by {
                        if k < mid {
                            assert(bottom(segs[k]) <= segs[mid as int].start_y);
                        }
                    }
                }
                lo = mid + 1;
            } else {
                proof {
                    assert forall|k: int| mid <= k < segs.len() implies bottom(#[trigger] segs[k]) > offset by {
                        if k > mid {
                            assert(bottom(segs[mid as int]) <= segs[k].start_y);
                        }
                    }
                }
                hi = mid;
            }
        }
        lo
    }

    /// The rows of the segments from `first` on that reach into the window
    /// `offset..viewport_bottom`, and the items they show.
    fn collect_rows(&self, first: usize, offset: usize, viewport_bottom: usize) -> (r: (
        Vec<RowMetrics>,
        Option<VisibleRange>,
    ))
        requires
            self.wf(),
            first <= self.segments@.len(),
            offset < viewport_bottom,
        ensures
            r.0@ == visible_rows(self.segments@.subrange(first as int, self.segments@.len() as int), offset as int, viewport_bottom as int),
            r.1 == range_of(self.segments@.subrange(first as int, self.segments@.len() as int), offset as int, viewport_bottom as int),
    {
        let ghost segs = self.segments@;
        let ghost o = offset as int;
        let ghost v = viewport_bottom as int;
        proof {
            lemma_tiles_ordered(segs, 0, self.total_content_height as int);
        }
        let mut rows: Vec<RowMetrics> = Vec::new();
        let mut first_item_index: Option<usize> = None;
        let mut last_item_index: Option<usize> = None;
        let mut first_item_y: Option<u16> = None;
        let mut last_item_y: Option<u16> = None;
        let mut k = first;
        while k < self.segments.len()
            invariant
                segs == self.segments@,
                first <= k <= segs.len(),
                o == offset,
                v == viewport_bottom,
                o < v,
                forall|t: int| 0 <= t < segs.len() ==> bottom(#[trigger] segs[t]) <= self.total_content_height,
                forall|i: int, j: int| 0 <= i < j < segs.len() ==> bottom(#[trigger] segs[i]) <= #[trigger] segs[j].start_y,
                rows@ == visible_rows(segs.subrange(first as int, k as int), o, v),
                first_shown(segs.subrange(first as int, k as int), o, v) matches Some(f) ==> first_item_index == Some(item_index(f.kind)) && first_item_y == Some(clamp_u16(sat_sub(f.start_y as int, o))),
                first_shown(segs.subrange(first as int, k as int), o, v) is None ==> first_item_index is None && first_item_y is None,
                last_shown(segs.subrange(first as int, k as int), o, v) matches Some(l) ==> last_item_index == Some(item_index(l.kind)) && last_item_y == Some(clamp_u16(sat_sub(l.start_y + visible_height(l, o, v) - 1, o))),
                last_shown(segs.subrange(first as int, k as int), o, v) is None ==> last_item_index is None && last_item_y is None,
            ensures
                k >= segs.len() || segs[k as int].start_y >= v,
                first <= k <= segs.len(),
                rows@ == visible_rows(segs.subrange(first as int, k as int), o, v),
                first_shown(segs.subrange(first as int, k as int), o, v) matches Some(f) ==> first_item_index == Some(item_index(f.kind)) && first_item_y == Some(clamp_u16(sat_sub(f.start_y as int, o))),
                first_shown(segs.subrange(first as int, k as int), o, v) is None ==> first_item_index is None && first_item_y is None,
                last_shown(segs.subrange(first as int, k as int), o, v) matches Some(l) ==> last_item_index == Some(item_index(l.kind)) && last_item_y == Some(clamp_u16(sat_sub(l.start_y + visible_height(l, o, v) - 1, o))),
                last_shown(segs.subrange(first as int, k as int), o, v) is None ==> last_item_index is None && last_item_y is None,
            decreases segs.len() - k,
        {
            let segment = self.segments[k];
            if segment.start_y >= viewport_bottom {
                break;
            }
            let ghost prefix = segs.subrange(first as int, k as int);
            let ghost ext = segs.subrange(first as int, k + 1);
            proof {
                assert(ext.drop_last() =~= prefix);
                assert(ext.last() == segment);
            }
            let segment_bottom = segment.start_y + segment.height;
            let first_visible_line = offset.saturating_sub(segment.start_y);
            let render_end = if segment_bottom <= viewport_bottom { segment_bottom } else { viewport_bottom };
            let visible_start = segment.start_y + first_visible_line;
            let render_h = render_end.saturating_sub(visible_start);
            assert(render_h == visible_height(segment, o, v));
            if render_h > 0 {
                match segment.kind {
                    RowKind::Item { idx } => {
                        if first_item_index.is_none() {
                            first_item_index = Some(idx);
                            let rel = segment.start_y.saturating_sub(offset);
                            first_item_y = Some(if rel > 65535 { 65535u16 } else { rel as u16 });
                        }
                        last_item_index = Some(idx);
                        let last_y = (segment.start_y + render_h - 1).saturating_sub(offset);
                        last_item_y = Some(if last_y > 65535 { 65535u16 } else { last_y as u16 });
                    },
                    RowKind::Gap => {},
                }
                rows.push(RowMetrics { kind: segment.kind, render_h, first_visible_line });
            }
            k = k + 1;
        }
        proof {
            let mid = segs.subrange(first as int, k as int);
            let tail = segs.subrange(k as int, segs.len() as int);
            assert forall|t: int| 0 <= t < tail.len() implies visible_height(#[trigger] tail[t], o, v) == 0 by {
                assert(tail[t] == segs[k + t]);
                if t > 0 {
                    assert(bottom(segs[k as int]) <= segs[k + t].start_y);
                }
            }
            lemma_nothing_shown(tail, o, v);
            assert(segs.subrange(first as int, segs.len() as int) =~= mid + tail);
            lemma_rows_concat(mid, tail, o, v);
            assert(visible_rows(mid, o, v) + Seq::<RowMetrics>::empty() =~= visible_rows(mid, o, v));
        }
        let range = match (first_item_index, last_item_index, first_item_y, last_item_y) {
            (Some(first_index), Some(last_index), Some(first_y), Some(last_y)) => Some(
                VisibleRange { first_index, last_index, first_y, last_y },
            ),
            _ => None,
        };
        (rows, range)
    }

    /// The offset a measurement settles on: the pending target resolved,
    /// then clamped so that the viewport stays filled.
    pub open spec fn measured_offset(&self, state: ChatListState, viewport_height: u16) -> int {
        let vh = viewport_height as int;
        let max_offset = sat_sub(self.total_content_height as int, vh);
        let resolved = match state.scroll_target {
            Some(ScrollTarget::Bottom) => max_offset,
            Some(ScrollTarget::Item(i)) => if i < self.item_start_y@.len() {
                sat_sub(self.item_start_y@[i as int] as int, vh / 2)
            } else {
                state.offset as int
            },
            None => state.offset as int,
        };
        min_int(resolved, max_offset)
    }

    /// Measure which rows are visible in a viewport of `viewport_height` rows,
    /// resolving any pending scroll target and clamping the offset first.
    pub fn measure_visible_rows(&self, state: &mut ChatListState, viewport_height: u16) -> (rows:
        Vec<RowMetrics>)
        requires
            self.wf(),
        ensures
            final(state).total_content_height == self.total_content_height,
            final(state).last_viewport_height == viewport_height,
            final(state).view_mode == old(state).view_mode,
            self.segments@.len() == 0 ==> {
                &&& rows@.len() == 0
                &&& final(state).visible_range is None
                &&& final(state).offset == old(state).offset
                &&& final(state).scroll_target == old(state).scroll_target
                &&& final(state).user_scrolled == old(state).user_scrolled
            },
            self.segments@.len() > 0 ==> {
                let o = self.measured_offset(*old(state), viewport_height);
                let v = o + viewport_height;
                &&& final(state).offset == o
                &&& final(state).scroll_target is None
                &&& final(state).user_scrolled == if old(state).scroll_target == Some(
                    ScrollTarget::Bottom,
                ) {
                    false
                } else {
                    old(state).user_scrolled
                }
                &&& rows@ == visible_rows(self.segments@, o, v)
                &&& final(state).visible_range == range_of(self.segments@, o, v)
            },
    {
        if self.segments.len() == 0 {
            state.visible_range = None;
            state.total_content_height = self.total_content_height;
            state.last_viewport_height = viewport_height;
            return Vec::new();
        }
        let ghost segs = self.segments@;
        let ghost expected = self.measured_offset(*state, viewport_height);
        state.total_content_height = self.total_content_height;
        state.last_viewport_height = viewport_height;
        let viewport_h = viewport_height as usize;
        let max_offset = self.total_content_height.saturating_sub(viewport_h);
        match state.take_scroll_target() {
            Some(ScrollTarget::Bottom) => {
                state.offset = max_offset;
                state.user_scrolled = false;
            },
            Some(ScrollTarget::Item(target_idx)) => {
                if target_idx < self.item_start_y.len() {
                    let item_y = self.item_start_y[target_idx];
                    state.offset = item_y.saturating_sub(viewport_h / 2);
                }
            },
            None => {},
        }
        if state.offset > max_offset {
            state.offset = max_offset;
        }
        assert(state.offset == expected);
        let offset = state.offset;
        let viewport_bottom = offset.saturating_add(viewport_h);
        assert(viewport_bottom == offset + viewport_h);
        if viewport_h == 0 || offset >= viewport_bottom {
            state.visible_range = None;
            proof {
                lemma_nothing_shown(segs, offset as int, viewport_bottom as int);
            }
            return Vec::new();
        }
        let first = self.first_visible_segment_index(offset);
        let ghost o = offset as int;
        let ghost v = viewport_bottom as int;
        proof {
            lemma_skip_hidden_prefix(segs, first as int, o, v);
        }
        if first >= self.segments.len() {
            state.visible_range = None;
            proof {
                assert(segs.subrange(first as int, segs.len() as int) =~= Seq::<Segment>::empty());
            }
            return Vec::new();
        }
        let (rows, range) = self.collect_rows(first, offset, viewport_bottom);
        state.visible_range = range;
        rows
    }
}


/// A measurement never scrolls past the content: the offset it settles on is
/// at most the content height minus the viewport height (and at least 0).
pub proof fn law_measured_offset_is_clamped(layout: ViewportLayout, state: ChatListState, viewport_height: u16)
    ensures
        0 <= layout.measured_offset(state, viewport_height) <= sat_sub(
            layout.total_content_height as int,
            viewport_height as int,
        ),
{
}

/// A pending jump to the bottom lands on the largest offset that keeps the
/// viewport filled.
pub proof fn law_bottom_target_lands_at_max_offset(
    layout: ViewportLayout,
    state: ChatListState,
    viewport_height: u16,
)
    requires
        state.scroll_target == Some(ScrollTarget::Bottom),
    ensures
        layout.measured_offset(state, viewport_height) == sat_sub(
            layout.total_content_height as int,
            viewport_height as int,
        ),
{
}

/// A pending jump to an existing item puts the item's top half a viewport
/// below the top (as far as the content allows); a jump to an item that does
/// not exist only clamps the current offset.
pub proof fn law_item_target_centres_the_item(
    layout: ViewportLayout,
    state: ChatListState,
    viewport_height: u16,
    index: usize,
)
    requires
        state.scroll_target == Some(ScrollTarget::Item(index)),
    ensures
        index < layout.item_start_y@.len() ==> layout.measured_offset(state, viewport_height)
            == min_int(
            sat_sub(layout.item_start_y@[index as int] as int, viewport_height as int / 2),
            sat_sub(layout.total_content_height as int, viewport_height as int),
        ),
        index >= layout.item_start_y@.len() ==> layout.measured_offset(state, viewport_height)
            == min_int(
            state.offset as int,
            sat_sub(layout.total_content_height as int, viewport_height as int),
        ),
{
}

/// The visible rows fill the viewport: their heights add up to the viewport
/// height, or to what is left of the content below the offset when that is less.
pub proof fn law_visible_rows_fill_viewport(layout: ViewportLayout, offset: usize, viewport_height: u16)
    requires
        layout.wf(),
        offset <= layout.total_content_height,
    ensures
        rows_height(visible_rows(layout.segments@, offset as int, offset + viewport_height))
            == min_int(viewport_height as int, layout.total_content_height - offset),
{
    let o = offset as int;
    let v = offset + viewport_height;
    let segs = layout.segments@;
    assert forall|k: int| 0 <= k < segs.len() implies visible_height(#[trigger] segs[k], o, v)
        <= usize::MAX by {
    }
    lemma_rows_fill_window(segs, 0, layout.total_content_height as int, o, v);
}

/// Every item shown in the measured rows is shown in full except possibly the
/// first and the last: a row is cut only at the viewport's edges.
pub proof fn law_rows_are_cut_only_at_edges(layout: ViewportLayout, offset: usize, viewport_height: u16, k: int)
    requires
        layout.wf(),
        0 <= k < layout.segments@.len(),
        layout.segments@[k].start_y >= offset,
        bottom(layout.segments@[k]) <= offset + viewport_height,
    ensures
        visible_height(layout.segments@[k], offset as int, offset + viewport_height)
            == layout.segments@[k].height,
{
}

} // verus!
