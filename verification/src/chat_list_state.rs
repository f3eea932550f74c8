//! State management for chat list scrolling and view modes.

use vstd::prelude::*;

verus! {

/// View mode for message rendering.
#[derive(Debug, Clone, Copy, PartialEq, Eq, Hash, Structural)]
pub enum ViewMode {
    Compact,
    Detailed,
}

/// Rows of the viewport occupied by items (indices into the flattened item list).
#[derive(Debug, Clone)]
pub struct VisibleRange {
    /// Index into flattened viewport items.
    pub first_index: usize,
    /// Index into flattened viewport items.
    pub last_index: usize,
    /// Y position relative to viewport origin.
    pub first_y: u16,
    /// Y position relative to viewport origin.
    pub last_y: u16,
}

/// A scroll request that is resolved once the content height is known.
#[derive(Debug, Clone, Copy, PartialEq, Eq, Structural)]
pub enum ScrollTarget {
    Bottom,
    Item(usize),
}

/// State for the chat list widget.
#[derive(Debug)]
pub struct ChatListState {
    /// Current scroll offset (row-based).
    pub offset: usize,
    /// Pending scroll target to resolve during measurement.
    pub scroll_target: Option<ScrollTarget>,
    /// View preferences.
    pub view_mode: ViewMode,
    /// Cached visible range for efficient rendering.
    pub visible_range: Option<VisibleRange>,
    /// Total content height (cached during render).
    pub total_content_height: usize,
    /// Viewport height (cached during render).
    pub last_viewport_height: u16,
    /// Whether the user has manually scrolled away from the bottom.
    pub user_scrolled: bool,
}

/// `a - b`, or 0 when `b > a`.
pub open spec fn sat_sub(a: int, b: int) -> int {
    if a >= b { a - b } else { 0 }
}

/// `a + b`, capped at `usize::MAX`.
pub open spec fn sat_add_usize(a: int, b: int) -> int {
    if a + b <= usize::MAX { a + b } else { usize::MAX as int }
}

pub open spec fn min_int(a: int, b: int) -> int {
    if a <= b { a } else { b }
}

/// The largest offset that still fills the viewport, when both the content
/// height and the viewport height are known (non-zero).
pub open spec fn max_offset_of(total: usize, viewport: u16) -> Option<int> {
    if total == 0 || viewport == 0 {
        None
    } else {
        Some(sat_sub(total as int, viewport as int))
    }
}

/// Clamp a candidate offset to the maximum offset, when there is one.
pub open spec fn clamp_offset(candidate: int, total: usize, viewport: u16) -> int {
    match max_offset_of(total, viewport) {
        Some(m) => min_int(candidate, m),
        None => candidate,
    }
}

/// Offset reached by scrolling up `amount` rows from `offset`.
pub open spec fn scrolled_up_offset(offset: usize, amount: usize, total: usize, viewport: u16) -> int {
    clamp_offset(sat_sub(offset as int, amount as int), total, viewport)
}

/// Offset reached by scrolling down `amount` rows from `offset`.
pub open spec fn scrolled_down_offset(offset: usize, amount: usize, total: usize, viewport: u16) -> int {
    clamp_offset(sat_add_usize(offset as int, amount as int), total, viewport)
}

impl ChatListState {
    /// The pending scroll target.
    pub open spec fn pending_target(&self) -> Option<ScrollTarget> {
        self.scroll_target
    }

    /// Everything but the offset, the pending target and the user-scrolled flag is unchanged.
    pub open spec fn same_layout(&self, other: &ChatListState) -> bool {
        &&& self.view_mode == other.view_mode
        &&& self.visible_range == other.visible_range
        &&& self.total_content_height == other.total_content_height
        &&& self.last_viewport_height == other.last_viewport_height
    }

    pub fn new() -> (s: Self)
        ensures
            s.offset == 0,
            s.pending_target() is None,
            s.view_mode == ViewMode::Compact,
            s.visible_range is None,
            s.total_content_height == 0,
            s.last_viewport_height == 0,
            !s.user_scrolled,
    {
        Self {
            offset: 0,
            scroll_target: None,
            view_mode: ViewMode::Compact,
            visible_range: None,
            total_content_height: 0,
            last_viewport_height: 0,
            user_scrolled: false,
        }
    }

    /// Request a jump to the bottom; it is resolved when the content height is known.
    pub fn scroll_to_bottom(&mut self)
        ensures
            final(self).pending_target() == Some(ScrollTarget::Bottom),
            !final(self).user_scrolled,
            final(self).offset == old(self).offset,
            final(self).same_layout(old(self)),
    {
        self.scroll_target = Some(ScrollTarget::Bottom);
        self.user_scrolled = false;
    }

    /// Scroll up by `amount` rows; returns whether the offset changed.
    pub fn scroll_up(&mut self, amount: usize) -> (moved: bool)
        ensures
            final(self).offset == scrolled_up_offset(
                old(self).offset,
                amount,
                old(self).total_content_height,
                old(self).last_viewport_height,
            ),
            moved == (final(self).offset != old(self).offset),
            final(self).user_scrolled == (moved || old(self).user_scrolled),
            final(self).pending_target() is None,
            final(self).same_layout(old(self)),
    {
        self.scroll_target = None;
        let previous = self.offset;
        self.offset = self.offset.saturating_sub(amount);
        if let Some(max_offset) = self.max_offset() {
            self.offset = if self.offset <= max_offset { self.offset } else { max_offset };
        }
        if self.offset == previous {
            false
        } else {
            self.user_scrolled = true;
            true
        }
    }

    /// Scroll down by `amount` rows; returns whether the offset changed.
    pub fn scroll_down(&mut self, amount: usize) -> (moved: bool)
        ensures
            final(self).offset == scrolled_down_offset(
                old(self).offset,
                amount,
                old(self).total_content_height,
                old(self).last_viewport_height,
            ),
            moved == (final(self).offset != old(self).offset),
            final(self).user_scrolled == (moved || old(self).user_scrolled),
            final(self).pending_target() is None,
            final(self).same_layout(old(self)),
    {
        self.scroll_target = None;
        let previous = self.offset;
        self.offset = self.offset.saturating_add(amount);
        if let Some(max_offset) = self.max_offset() {
            self.offset = if self.offset <= max_offset { self.offset } else { max_offset };
        }
        if self.offset == previous {
            false
        } else {
            self.user_scrolled = true;
            true
        }
    }

    pub fn scroll_to_top(&mut self)
        ensures
            final(self).offset == 0,
            final(self).pending_target() is None,
            final(self).user_scrolled,
            final(self).same_layout(old(self)),
    {
        self.offset = 0;
        self.scroll_target = None;
        self.user_scrolled = true;
    }

    /// Whether the view follows the bottom of the content.
    pub open spec fn at_bottom(&self) -> bool {
        if self.total_content_height == 0 || self.last_viewport_height == 0 {
            true
        } else {
            !self.user_scrolled || self.offset >= sat_sub(
                self.total_content_height as int,
                self.last_viewport_height as int,
            )
        }
    }

    pub fn is_at_bottom(&self) -> (b: bool)
        ensures
            b == self.at_bottom(),
    {
        if self.total_content_height == 0 || self.last_viewport_height == 0 {
            return true;
        }
        let max_offset = self.total_content_height.saturating_sub(self.last_viewport_height as usize);
        !self.user_scrolled || self.offset >= max_offset
    }

    /// Request that the item at `index` be centred in the viewport.
    pub fn scroll_to_item(&mut self, index: usize)
        ensures
            final(self).pending_target() == Some(ScrollTarget::Item(index)),
            final(self).user_scrolled,
            final(self).offset == old(self).offset,
            final(self).same_layout(old(self)),
    {
        self.scroll_target = Some(ScrollTarget::Item(index));
        self.user_scrolled = true;
    }

    pub open spec fn toggled(mode: ViewMode) -> ViewMode {
        match mode {
            ViewMode::Compact => ViewMode::Detailed,
            ViewMode::Detailed => ViewMode::Compact,
        }
    }

    pub fn toggle_view_mode(&mut self)
        ensures
            final(self).view_mode == Self::toggled(old(self).view_mode),
            final(self).offset == old(self).offset,
            final(self).pending_target() == old(self).pending_target(),
            final(self).user_scrolled == old(self).user_scrolled,
            final(self).visible_range == old(self).visible_range,
            final(self).total_content_height == old(self).total_content_height,
            final(self).last_viewport_height == old(self).last_viewport_height,
    {
        self.view_mode = match self.view_mode {
            ViewMode::Compact => ViewMode::Detailed,
            ViewMode::Detailed => ViewMode::Compact,
        };
    }

    /// Remove and return the pending scroll target.
    pub fn take_scroll_target(&mut self) -> (t: Option<ScrollTarget>)
        ensures
            t == old(self).pending_target(),
            final(self).pending_target() is None,
            final(self).offset == old(self).offset,
            final(self).user_scrolled == old(self).user_scrolled,
            final(self).same_layout(old(self)),
    {
        self.scroll_target.take()
    }

    fn max_offset(&self) -> (m: Option<usize>)
        ensures
            match max_offset_of(self.total_content_height, self.last_viewport_height) {
                Some(v) => m == Some(v as usize),
                None => m is None,
            },
    {
        if self.total_content_height == 0 || self.last_viewport_height == 0 {
            None
        } else {
            Some(self.total_content_height.saturating_sub(self.last_viewport_height as usize))
        }
    }
}

} // verus!

verus! {

/// Scrolling down and then up by the same amount returns to the starting
/// offset when neither scroll is clamped.
pub proof fn law_scroll_down_then_up_round_trips(
    offset: usize,
    amount: usize,
    total: usize,
    viewport: u16,
)
    requires
        max_offset_of(total, viewport) matches Some(m) && offset + amount <= m,
    ensures
        ({
            let down = scrolled_down_offset(offset, amount, total, viewport);
            &&& 0 <= down <= usize::MAX
            &&& scrolled_up_offset(down as usize, amount, total, viewport) == offset
        }),
{
}

/// Once the content and viewport heights are known, a scroll never leaves
/// the offset past the last screenful.
pub proof fn law_scroll_stays_in_range(offset: usize, amount: usize, total: usize, viewport: u16)
    requires
        max_offset_of(total, viewport) is Some,
    ensures
        0 <= scrolled_up_offset(offset, amount, total, viewport) <= max_offset_of(
            total,
            viewport,
        )->0,
        0 <= scrolled_down_offset(offset, amount, total, viewport) <= max_offset_of(
            total,
            viewport,
        )->0,
{
}

/// Toggling the view mode twice restores it.
pub proof fn law_toggle_view_mode_twice_is_identity(mode: ViewMode)
    ensures
        ChatListState::toggled(ChatListState::toggled(mode)) == mode,
{
}

/// Asking for the bottom makes the list follow the bottom again.
pub proof fn law_scroll_to_bottom_follows_bottom(s: ChatListState)
    requires
        !s.user_scrolled,
    ensures
        s.at_bottom(),
{
}

/// The view is at the bottom exactly when the user has not scrolled away or
/// the offset has reached the last screenful, whichever way it got there;
/// before the heights are known it always is.
pub proof fn law_at_bottom_once_the_last_screenful_is_reached(s: ChatListState)
    ensures
        s.total_content_height == 0 || s.last_viewport_height == 0 ==> s.at_bottom(),
        !s.user_scrolled ==> s.at_bottom(),
        s.offset as int + s.last_viewport_height as int >= s.total_content_height as int
            ==> s.at_bottom(),
        s.total_content_height > 0 && s.last_viewport_height > 0 && s.user_scrolled && (s.offset as int
            + s.last_viewport_height as int) < (s.total_content_height as int) ==> !s.at_bottom(),
{
}

/// Scrolling down far enough to reach the last screenful leaves the view at
/// the bottom, even though the user scrolled.
pub proof fn law_scrolling_down_to_the_end_is_at_bottom(s: ChatListState, after: ChatListState, amount: usize)
    requires
        max_offset_of(s.total_content_height, s.last_viewport_height) matches Some(m)
            && s.offset as int + amount as int >= m,
        after.offset == scrolled_down_offset(s.offset, amount, s.total_content_height, s.last_viewport_height),
        after.same_layout(&s),
    ensures
        after.at_bottom(),
{
}

} // verus!
