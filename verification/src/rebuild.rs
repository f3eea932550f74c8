//! Deciding how much of the chat viewport a rebuild redoes, and which
//! rendered widgets the items of a new flattening keep.
//!
//! A rebuild is skipped when nothing changed, only re-lays out the items
//! when the width, view mode or spacing changed on a clean viewport, and
//! flattens the conversation anew when the viewport is dirty. In a full
//! rebuild each new item takes over the widget of the old item with its
//! id, re-rendering it when its content hash changed.

use vstd::prelude::*;
use crate::chat_list_state::{ChatListState, ViewMode};

verus! {

/// How much a rebuild redoes.
#[derive(Debug, Clone, Copy, PartialEq, Eq, Structural)]
pub enum RebuildKind {
    /// Nothing changed: keep everything.
    Skip,
    /// Same items, new geometry: drop stale heights and lay out again.
    Relayout,
    /// The items changed: flatten again and reconcile the widgets.
    Full,
}

pub open spec fn rebuild_kind_of(
    dirty: bool,
    width_changed: bool,
    mode_changed: bool,
    spacing_changed: bool,
) -> RebuildKind {
    if dirty {
        RebuildKind::Full
    } else if width_changed || mode_changed || spacing_changed {
        RebuildKind::Relayout
    } else {
        RebuildKind::Skip
    }
}

/// How much to rebuild, from whether the items changed (`dirty`) and
/// whether the width, the view mode or the spacing changed.
pub fn rebuild_kind(dirty: bool, width_changed: bool, mode_changed: bool, spacing_changed: bool) -> (k:
    RebuildKind)
    ensures
        k == rebuild_kind_of(dirty, width_changed, mode_changed, spacing_changed),
{
    if !dirty && !width_changed && !mode_changed && !spacing_changed {
        return RebuildKind::Skip;
    }
    if !dirty {
        RebuildKind::Relayout
    } else {
        RebuildKind::Full
    }
}

/// An item of the chat list as the reconciliation sees it: its id and the
/// hash of what its widget shows.
pub struct WidgetKey {
    pub id: String,
    pub content_hash: u64,
}

/// What becomes of the widget for one new item.
#[derive(Debug, Clone, Copy, PartialEq, Eq, Structural)]
pub enum WidgetAction {
    /// Render a new widget.
    Create,
    /// Take over the widget of old item `from` and render it again, its
    /// content having changed.
    Recreate { from: usize },
    /// Take over the widget of old item `from` as it is.
    Reuse { from: usize },
}

/// The last index below `n` of an item of `keys` with id `id`, or -1.
pub open spec fn last_index_with_id(keys: Seq<WidgetKey>, id: Seq<char>, n: int) -> int
    decreases n,
{
    if n <= 0 {
        -1
    } else if keys[n - 1].id@ == id {
        n - 1
    } else {
        last_index_with_id(keys, id, n - 1)
    }
}

/// An item before the `k`th of `new` has the same id.
pub open spec fn id_seen_before(new: Seq<WidgetKey>, k: int) -> bool {
    exists|k2: int| 0 <= k2 < k && #[trigger] new[k2].id@ == new[k].id@
}

/// The widget of the `k`th new item: old items are looked up by id, the
/// last one with an id standing for it; the first new item with that id
/// takes its widget over, re-rendered when the content hashes differ, and
/// any later new item with the same id gets a widget of its own.
pub open spec fn widget_action_of(existing: Seq<WidgetKey>, new: Seq<WidgetKey>, k: int) -> WidgetAction {
    let j = last_index_with_id(existing, new[k].id@, existing.len() as int);
    if j < 0 || id_seen_before(new, k) {
        WidgetAction::Create
    } else if existing[j].content_hash != new[k].content_hash {
        WidgetAction::Recreate { from: j as usize }
    } else {
        WidgetAction::Reuse { from: j as usize }
    }
}

pub proof fn lemma_last_index_with_id(keys: Seq<WidgetKey>, id: Seq<char>, n: int)
    requires
        0 <= n <= keys.len(),
    ensures
        -1 <= last_index_with_id(keys, id, n) < n,
        last_index_with_id(keys, id, n) >= 0 ==> keys[last_index_with_id(keys, id, n)].id@ == id,
        last_index_with_id(keys, id, n) < 0 ==> forall|j: int| 0 <= j < n ==> keys[j].id@ != id,
    decreases n,
{
    if n > 0 && keys[n - 1].id@ != id {
        lemma_last_index_with_id(keys, id, n - 1);
    }
}

fn seen_before(new: &Vec<WidgetKey>, k: usize) -> (b: bool)
    requires
        k < new.len(),
    ensures
        b == id_seen_before(new@, k as int),
{
    let mut k2: usize = 0;
    while k2 < k
        invariant
            k2 <= k < new.len(),
            forall|i: int| 0 <= i < k2 ==> new@[i].id@ != new@[k as int].id@,
        decreases k - k2,
    {
        if new[k2].id == new[k].id {
            assert(new@[k2 as int].id@ == new@[k as int].id@);
            return true;
        }
        k2 = k2 + 1;
    }
    false
}

fn find_last_with_id(keys: &Vec<WidgetKey>, id: &String) -> (j: Option<usize>)
    ensures
        match j {
            Some(i) => i as int == last_index_with_id(keys@, id@, keys.len() as int),
            None => last_index_with_id(keys@, id@, keys.len() as int) < 0,
        },
{
    let mut n: usize = keys.len();
    while n > 0
        invariant
            n <= keys.len(),
            last_index_with_id(keys@, id@, keys.len() as int) == last_index_with_id(
                keys@,
                id@,
                n as int,
            ),
        decreases n,
    {
        if keys[n - 1].id == *id {
            return Some(n - 1);
        }
        n = n - 1;
    }
    None
}

/// The widget action for each item of `new`, given the items that had
/// widgets before.
pub fn plan_widget_reuse(existing: &Vec<WidgetKey>, new: &Vec<WidgetKey>) -> (plan: Vec<WidgetAction>)
    ensures
        plan.len() == new.len(),
        forall|k: int| 0 <= k < new.len() ==> plan@[k] == widget_action_of(existing@, new@, k),
{
    let mut plan: Vec<WidgetAction> = Vec::new();
    let mut k: usize = 0;
    while k < new.len()
        invariant
            k <= new.len(),
            plan.len() == k,
            forall|i: int| 0 <= i < k ==> plan@[i] == widget_action_of(existing@, new@, i),
        decreases new.len() - k,
    {
        proof {
            lemma_last_index_with_id(existing@, new@[k as int].id@, existing.len() as int);
        }
        let action = match find_last_with_id(existing, &new[k].id) {
            None => WidgetAction::Create,
            Some(j) => {
                if seen_before(new, k) {
                    WidgetAction::Create
                } else if existing[j].content_hash != new[k].content_hash {
                    WidgetAction::Recreate { from: j }
                } else {
                    WidgetAction::Reuse { from: j }
                }
            },
        };
        plan.push(action);
        k = k + 1;
    }
    plan
}

pub open spec fn taken_from(a: WidgetAction) -> Option<int> {
    match a {
        WidgetAction::Create => None,
        WidgetAction::Recreate { from } => Some(from as int),
        WidgetAction::Reuse { from } => Some(from as int),
    }
}

/// A widget that an item takes over belonged to an old item with the same
/// id, and one taken over as it is shows the same content.
pub proof fn law_taken_widget_has_the_same_id(existing: Seq<WidgetKey>, new: Seq<WidgetKey>, k: int)
    requires
        0 <= k < new.len(),
        existing.len() <= usize::MAX,
    ensures
        taken_from(widget_action_of(existing, new, k)) matches Some(j) ==> 0 <= j < existing.len()
            && existing[j].id@ == new[k].id@,
        widget_action_of(existing, new, k) matches WidgetAction::Reuse { from } ==> existing[from as int].content_hash
            == new[k].content_hash,
{
    lemma_last_index_with_id(existing, new[k].id@, existing.len() as int);
}

/// No old widget is taken over by two new items.
pub proof fn law_each_widget_taken_at_most_once(
    existing: Seq<WidgetKey>,
    new: Seq<WidgetKey>,
    k1: int,
    k2: int,
)
    requires
        0 <= k1 < k2 < new.len(),
        existing.len() <= usize::MAX,
    ensures
        taken_from(widget_action_of(existing, new, k1)) is Some && taken_from(
            widget_action_of(existing, new, k2),
        ) is Some ==> taken_from(widget_action_of(existing, new, k1)) != taken_from(
            widget_action_of(existing, new, k2),
        ),
{
    law_taken_widget_has_the_same_id(existing, new, k1);
    law_taken_widget_has_the_same_id(existing, new, k2);
    if taken_from(widget_action_of(existing, new, k1)) is Some && taken_from(
        widget_action_of(existing, new, k2),
    ) is Some && taken_from(widget_action_of(existing, new, k1)) == taken_from(
        widget_action_of(existing, new, k2),
    ) {
        assert(new[k1].id@ == new[k2].id@);
        assert(id_seen_before(new, k2));
    }
}

/// What the viewport remembers of its last rebuild: the geometry it laid
/// out for, and whether the items changed since.
pub struct RebuildMemo {
    pub last_width: u16,
    pub last_spacing: u16,
    pub last_mode: ViewMode,
    pub dirty: bool,
}

impl RebuildMemo {
    /// Nothing laid out yet: the first rebuild is a full one.
    pub fn new() -> (m: Self)
        ensures
            m.last_width == 0,
            m.last_spacing == 0,
            m.last_mode == ViewMode::Compact,
            m.dirty,
    {
        RebuildMemo { last_width: 0, last_spacing: 0, last_mode: ViewMode::Compact, dirty: true }
    }

    /// The items changed: the next rebuild is a full one.
    pub fn mark_dirty(&mut self)
        ensures
            final(self).dirty,
            final(self).last_width == old(self).last_width,
            final(self).last_spacing == old(self).last_spacing,
            final(self).last_mode == old(self).last_mode,
    {
        self.dirty = true;
    }

    /// Starts a rebuild at `width`, `mode` and `spacing`: how much to redo,
    /// and, unless nothing is, the new geometry remembered and the list
    /// switched to `mode`.
    pub fn begin_rebuild(&mut self, state: &mut ChatListState, width: u16, mode: ViewMode, spacing: u16) -> (k:
        RebuildKind)
        ensures
            k == rebuild_kind_of(
                old(self).dirty,
                width != old(self).last_width,
                mode != old(self).last_mode,
                spacing != old(self).last_spacing,
            ),
            final(self).dirty == old(self).dirty,
            k == RebuildKind::Skip ==> final(self).last_width == old(self).last_width
                && final(self).last_spacing == old(self).last_spacing && final(self).last_mode == old(
                self,
            ).last_mode && *final(state) == *old(state),
            k != RebuildKind::Skip ==> {
                &&& final(self).last_width == width
                &&& final(self).last_spacing == spacing
                &&& final(self).last_mode == mode
                &&& *final(state) == (ChatListState { view_mode: mode, ..*old(state) })
            },
    {
        let width_changed = width != self.last_width;
        let mode_changed = mode != self.last_mode;
        let spacing_changed = spacing != self.last_spacing;
        let k = rebuild_kind(self.dirty, width_changed, mode_changed, spacing_changed);
        match k {
            RebuildKind::Skip => {},
            _ => {
                self.last_width = width;
                self.last_spacing = spacing;
                self.last_mode = mode;
                state.view_mode = mode;
            },
        }
        k
    }

    /// Ends a rebuild whose layout is `total` rows high: the list learns the
    /// height, forgets its visible range, and the items are clean.
    pub fn finish_rebuild(&mut self, state: &mut ChatListState, total: usize)
        ensures
            !final(self).dirty,
            final(self).last_width == old(self).last_width,
            final(self).last_spacing == old(self).last_spacing,
            final(self).last_mode == old(self).last_mode,
            *final(state) == (ChatListState {
                total_content_height: total,
                visible_range: None,
                ..*old(state)
            }),
    {
        state.total_content_height = total;
        state.visible_range = None;
        self.dirty = false;
    }
}

} // verus!
