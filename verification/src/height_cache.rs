//! Height cache of a chat widget, keyed by view mode and width.

use vstd::prelude::*;
use crate::chat_list_state::ViewMode;

verus! {

/// Cached rendered heights of a widget for one width.
#[derive(Debug, Clone)]
pub struct HeightCache {
    pub compact: Option<usize>,
    pub detailed: Option<usize>,
    pub last_width: u16,
}

impl HeightCache {
    pub fn new() -> (c: Self)
        ensures
            c.compact is None,
            c.detailed is None,
            c.last_width == 0,
    {
        Self { compact: None, detailed: None, last_width: 0 }
    }

    pub fn invalidate(&mut self)
        ensures
            final(self).compact is None,
            final(self).detailed is None,
            final(self).last_width == 0,
    {
        self.compact = None;
        self.detailed = None;
        self.last_width = 0;
    }

    /// The cached height for `mode` at `width`: none when the cache was filled
    /// at another width.
    pub open spec fn cached(&self, mode: ViewMode, width: u16) -> Option<usize> {
        if self.last_width != width {
            None
        } else {
            match mode {
                ViewMode::Compact => self.compact,
                ViewMode::Detailed => self.detailed,
            }
        }
    }

    pub fn get(&self, mode: ViewMode, width: u16) -> (h: Option<usize>)
        ensures
            h == self.cached(mode, width),
    {
        if self.last_width != width {
            return None;
        }
        match mode {
            ViewMode::Compact => self.compact,
            ViewMode::Detailed => self.detailed,
        }
    }

    pub fn set(&mut self, mode: ViewMode, width: u16, height: usize)
        ensures
            final(self).last_width == width,
            mode == ViewMode::Compact ==> final(self).compact == Some(height) && final(self).detailed
                == old(self).detailed,
            mode == ViewMode::Detailed ==> final(self).detailed == Some(height)
                && final(self).compact == old(self).compact,
    {
        self.last_width = width;
        match mode {
            ViewMode::Compact => self.compact = Some(height),
            ViewMode::Detailed => self.detailed = Some(height),
        }
    }
}

/// Reading back what was just cached, at the same width and mode, gives it
/// back; at another width nothing is cached.
pub proof fn law_get_returns_what_set_stored(
    before: HeightCache,
    after: HeightCache,
    mode: ViewMode,
    width: u16,
    height: usize,
    other_width: u16,
)
    requires
        after.last_width == width,
        mode == ViewMode::Compact ==> after.compact == Some(height),
        mode == ViewMode::Detailed ==> after.detailed == Some(height),
        other_width != width,
    ensures
        after.cached(mode, width) == Some(height),
        after.cached(mode, other_width) is None,
{
}

/// After invalidation nothing is cached, for any mode and width.
pub proof fn law_invalidate_forgets_everything(c: HeightCache, mode: ViewMode, width: u16)
    requires
        c.compact is None,
        c.detailed is None,
    ensures
        c.cached(mode, width) is None,
{
}

} // verus!
