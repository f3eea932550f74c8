//! Input modes, the mode stack, mouse-scroll coalescing, and the small text
//! helpers of the terminal UI.

use vstd::prelude::*;
use crate::text::{chars_of, push_char, push_str, string_from_chars, sub_chars, trim_chars, trim_end_index, trim_end_seq, trim_seq};
use crate::edit::line_end_of;

verus! {

/// Input modes of the terminal UI.
#[derive(Debug, Clone, Copy, PartialEq, Eq, Structural)]
pub enum InputMode {
    /// Default non-modal editing.
    Simple,
    VimNormal,
    VimInsert,
    /// Typing a shell command.
    BashCommand,
    AwaitingApproval,
    ConfirmExit,
    /// Choosing a message to edit.
    EditMessageSelection,
    /// Choosing a file.
    FuzzyFinder,
    /// First-run setup.
    Setup,
}

/// The user's editing preference.
#[derive(Debug, Clone, Copy, PartialEq, Eq, Structural)]
pub enum EditingMode {
    Simple,
    Vim,
}

/// Mouse scrolling moves the chat except in setup and in the overlays.
pub open spec fn allows_mouse_chat_scroll(mode: InputMode) -> bool {
    !(mode == InputMode::Setup || mode == InputMode::FuzzyFinder || mode
        == InputMode::EditMessageSelection)
}

pub fn mode_allows_mouse_chat_scroll(mode: InputMode) -> (b: bool)
    ensures
        b == allows_mouse_chat_scroll(mode),
{
    !matches!(mode, InputMode::Setup | InputMode::FuzzyFinder | InputMode::EditMessageSelection)
}

/// Where a provider's credentials come from: an API key, a plugin (an
/// OAuth flow), or a source the status line does not describe.
#[derive(Debug, Clone, Copy, PartialEq, Eq, Structural)]
pub enum AuthSource {
    ApiKey,
    Plugin,
    Other,
}

/// How a provider's authentication is shown.
#[derive(Debug, Clone, Copy, PartialEq, Eq, Structural)]
pub enum AuthStatus {
    ApiKeySet,
    OAuthConfigured,
    NotConfigured,
}

pub open spec fn auth_status_of(source: Option<AuthSource>) -> AuthStatus {
    match source {
        Some(AuthSource::ApiKey) => AuthStatus::ApiKeySet,
        Some(AuthSource::Plugin) => AuthStatus::OAuthConfigured,
        _ => AuthStatus::NotConfigured,
    }
}

pub open spec fn has_auth(source: Option<AuthSource>) -> bool {
    source matches Some(AuthSource::ApiKey) || source matches Some(AuthSource::Plugin)
}

/// The status shown for a provider whose credentials come from `source`.
pub fn auth_status_from_source(source: Option<&AuthSource>) -> (s: AuthStatus)
    ensures
        s == auth_status_of(
            match source {
                Some(a) => Some(*a),
                None => None,
            },
        ),
{
    match source {
        Some(AuthSource::ApiKey) => AuthStatus::ApiKeySet,
        Some(AuthSource::Plugin) => AuthStatus::OAuthConfigured,
        _ => AuthStatus::NotConfigured,
    }
}

/// Whether `source` provides credentials at all.
pub fn has_any_auth_source(source: Option<&AuthSource>) -> (b: bool)
    ensures
        b == has_auth(
            match source {
                Some(a) => Some(*a),
                None => None,
            },
        ),
{
    matches!(source, Some(AuthSource::ApiKey) | Some(AuthSource::Plugin))
}

/// A provider has some credential source exactly when its status is shown
/// as configured.
pub proof fn law_auth_source_iff_configured(source: Option<AuthSource>)
    ensures
        has_auth(source) <==> auth_status_of(source) != AuthStatus::NotConfigured,
{
}

/// How many previous modes are remembered.
pub const MAX_MODE_DEPTH: usize = 8;

/// The current input mode and the modes to return to.
#[derive(Debug)]
pub struct ModeState {
    pub input_mode: InputMode,
    /// Previous modes, oldest first.
    pub mode_stack: Vec<InputMode>,
    pub editing_mode: EditingMode,
}

pub open spec fn default_mode_for(editing: EditingMode) -> InputMode {
    match editing {
        EditingMode::Simple => InputMode::Simple,
        EditingMode::Vim => InputMode::VimNormal,
    }
}

/// Modes that accept text input.
pub open spec fn accepts_text(mode: InputMode) -> bool {
    mode == InputMode::Simple || mode == InputMode::VimInsert || mode == InputMode::BashCommand
        || mode == InputMode::Setup || mode == InputMode::FuzzyFinder
}

/// The stack after remembering `mode`: the oldest entry is dropped when full.
pub open spec fn pushed_stack(stack: Seq<InputMode>, mode: InputMode) -> Seq<InputMode> {
    if stack.len() == MAX_MODE_DEPTH {
        stack.drop_first().push(mode)
    } else {
        stack.push(mode)
    }
}

impl ModeState {
    /// The stack never holds more than [`MAX_MODE_DEPTH`] modes.
    pub open spec fn wf(&self) -> bool {
        self.mode_stack@.len() <= MAX_MODE_DEPTH
    }

    /// A state in the default mode for `editing_mode`, with nothing to return to.
    pub fn new(editing_mode: EditingMode) -> (s: Self)
        ensures
            s.wf(),
            s.input_mode == default_mode_for(editing_mode),
            s.mode_stack@.len() == 0,
            s.editing_mode == editing_mode,
    {
        let input_mode = match editing_mode {
            EditingMode::Simple => InputMode::Simple,
            EditingMode::Vim => InputMode::VimNormal,
        };
        ModeState { input_mode, mode_stack: Vec::new(), editing_mode }
    }

    /// Remember the current mode.
    pub fn push_mode(&mut self)
        requires
            old(self).wf(),
        ensures
            final(self).wf(),
            final(self).mode_stack@ == pushed_stack(old(self).mode_stack@, old(self).input_mode),
            final(self).input_mode == old(self).input_mode,
            final(self).editing_mode == old(self).editing_mode,
    {
        if self.mode_stack.len() == MAX_MODE_DEPTH {
            self.mode_stack.remove(0);
        }
        self.mode_stack.push(self.input_mode);
        proof {
            if old(self).mode_stack@.len() == MAX_MODE_DEPTH {
                assert(old(self).mode_stack@.remove(0) =~= old(self).mode_stack@.drop_first());
            }
        }
    }

    /// Forget and return the most recent remembered mode.
    pub fn pop_mode(&mut self) -> (m: Option<InputMode>)
        requires
            old(self).wf(),
        ensures
            final(self).wf(),
            old(self).mode_stack@.len() == 0 ==> m is None && final(self).mode_stack@ == old(
                self,
            ).mode_stack@,
            old(self).mode_stack@.len() > 0 ==> m == Some(old(self).mode_stack@.last())
                && final(self).mode_stack@ == old(self).mode_stack@.drop_last(),
            final(self).input_mode == old(self).input_mode,
            final(self).editing_mode == old(self).editing_mode,
    {
        self.mode_stack.pop()
    }

    /// Switch to `new_mode`, remembering the current mode when it differs.
    pub fn switch_mode(&mut self, new_mode: InputMode)
        requires
            old(self).wf(),
        ensures
            final(self).wf(),
            final(self).input_mode == new_mode,
            final(self).editing_mode == old(self).editing_mode,
            old(self).input_mode == new_mode ==> final(self).mode_stack@ == old(self).mode_stack@,
            old(self).input_mode != new_mode ==> final(self).mode_stack@ == pushed_stack(
                old(self).mode_stack@,
                old(self).input_mode,
            ),
    {
        if self.input_mode != new_mode {
            self.push_mode();
            self.input_mode = new_mode;
        }
    }

    /// Switch to `new_mode` without remembering the current one.
    pub fn set_mode(&mut self, new_mode: InputMode)
        ensures
            final(self).input_mode == new_mode,
            final(self).mode_stack@ == old(self).mode_stack@,
            final(self).editing_mode == old(self).editing_mode,
    {
        self.input_mode = new_mode;
    }

    /// Return to the most recent remembered mode, or to the default mode.
    pub fn restore_previous_mode(&mut self)
        requires
            old(self).wf(),
        ensures
            final(self).wf(),
            final(self).editing_mode == old(self).editing_mode,
            old(self).mode_stack@.len() == 0 ==> final(self).input_mode == default_mode_for(
                old(self).editing_mode,
            ) && final(self).mode_stack@ == old(self).mode_stack@,
            old(self).mode_stack@.len() > 0 ==> final(self).input_mode == old(self).mode_stack@.last()
                && final(self).mode_stack@ == old(self).mode_stack@.drop_last(),
    {
        self.input_mode = match self.pop_mode() {
            Some(m) => m,
            None => self.default_input_mode(),
        };
    }

    pub fn default_input_mode(&self) -> (m: InputMode)
        ensures
            m == default_mode_for(self.editing_mode),
    {
        match self.editing_mode {
            EditingMode::Simple => InputMode::Simple,
            EditingMode::Vim => InputMode::VimNormal,
        }
    }

    pub fn is_text_input_mode(&self) -> (b: bool)
        ensures
            b == accepts_text(self.input_mode),
    {
        matches!(
            self.input_mode,
            InputMode::Simple | InputMode::VimInsert | InputMode::BashCommand | InputMode::Setup
                | InputMode::FuzzyFinder
        )
    }
}

/// Switching to another mode and then restoring returns to the mode one
/// started from, and the stack of remembered modes never grows past its bound.
pub proof fn law_switch_then_restore_returns(
    stack: Seq<InputMode>,
    from: InputMode,
    to: InputMode,
    editing: EditingMode,
)
    requires
        stack.len() <= MAX_MODE_DEPTH,
        from != to,
    ensures
        pushed_stack(stack, from).len() <= MAX_MODE_DEPTH,
        pushed_stack(stack, from).len() > 0,
        pushed_stack(stack, from).last() == from,
        stack.len() < MAX_MODE_DEPTH ==> pushed_stack(stack, from).drop_last() == stack,
{
    if stack.len() < MAX_MODE_DEPTH {
        assert(stack.push(from).drop_last() =~= stack);
    }
}

/// A rectangle of terminal cells.
#[derive(Debug, Clone, Copy, PartialEq, Eq, Structural)]
pub struct Rect {
    pub x: u16,
    pub y: u16,
    pub width: u16,
    pub height: u16,
}

pub open spec fn sat_add_u16(a: u16, b: u16) -> int {
    if a + b > u16::MAX { u16::MAX as int } else { a + b }
}

/// Whether the cell at (`column`, `row`) lies in `area` (edges computed with saturation).
pub open spec fn contains_point(area: Rect, column: u16, row: u16) -> bool {
    column >= area.x && column < sat_add_u16(area.x, area.width) && row >= area.y && row
        < sat_add_u16(area.y, area.height)
}

pub fn rect_contains_point(area: Rect, column: u16, row: u16) -> (b: bool)
    ensures
        b == contains_point(area, column, row),
{
    let x_end = area.x.saturating_add(area.width);
    let y_end = area.y.saturating_add(area.height);
    column >= area.x && column < x_end && row >= area.y && row < y_end
}

/// What a mouse event did.
#[derive(Debug, Clone, Copy, PartialEq, Eq, Structural)]
pub enum MouseEventKind {
    ScrollUp,
    ScrollDown,
    /// Clicks, drags, moves, horizontal scrolls.
    Other,
}

/// A mouse event at a terminal cell.
#[derive(Debug, Clone, Copy, PartialEq, Eq, Structural)]
pub struct MouseEvent {
    pub kind: MouseEventKind,
    pub column: u16,
    pub row: u16,
}

pub fn mouse_event_in_rect(event: &MouseEvent, area: Rect) -> (b: bool)
    ensures
        b == contains_point(area, event.column, event.row),
{
    rect_contains_point(area, event.column, event.row)
}

/// A terminal event.
#[derive(Debug, Clone, Copy, PartialEq, Eq, Structural)]
pub enum Event {
    Mouse(MouseEvent),
    Key,
    /// Resizes, focus changes, pastes.
    Other,
}

/// Direction of a scroll.
#[derive(Debug, Clone, Copy, PartialEq, Eq, Structural)]
pub enum ScrollDirection {
    Up,
    Down,
}

pub open spec fn direction_of(kind: MouseEventKind) -> Option<ScrollDirection> {
    match kind {
        MouseEventKind::ScrollUp => Some(ScrollDirection::Up),
        MouseEventKind::ScrollDown => Some(ScrollDirection::Down),
        MouseEventKind::Other => None,
    }
}

impl ScrollDirection {
    pub fn from_mouse_event(event: &MouseEvent) -> (d: Option<ScrollDirection>)
        ensures
            d == direction_of(event.kind),
    {
        match event.kind {
            MouseEventKind::ScrollUp => Some(ScrollDirection::Up),
            MouseEventKind::ScrollDown => Some(ScrollDirection::Down),
            MouseEventKind::Other => None,
        }
    }
}

/// A run of scroll steps in one direction.
#[derive(Debug, Clone, Copy, PartialEq, Eq, Structural)]
pub struct PendingScroll {
    pub direction: ScrollDirection,
    pub steps: usize,
}

/// Adds a run of wheel steps to the scroll waiting to be applied: a run in
/// the same direction adds its steps (saturating), one in the other
/// direction replaces it. Also whether nothing was waiting before, when the
/// flush timer starts anew.
pub fn merge_pending_scroll(pending: Option<PendingScroll>, scroll: PendingScroll) -> (r: (
    Option<PendingScroll>,
    bool,
))
    ensures
        r.1 == (pending is None),
        r.0 == match pending {
            Some(p) => if p.direction == scroll.direction {
                Some(
                    PendingScroll {
                        direction: p.direction,
                        steps: if p.steps + scroll.steps > usize::MAX {
                            usize::MAX
                        } else {
                            (p.steps + scroll.steps) as usize
                        },
                    },
                )
            } else {
                Some(scroll)
            },
            None => Some(scroll),
        },
{
    let was_empty = pending.is_none();
    let merged = match pending {
        Some(p) => {
            if p.direction == scroll.direction {
                PendingScroll { direction: p.direction, steps: p.steps.saturating_add(scroll.steps) }
            } else {
                scroll
            }
        },
        None => scroll,
    };
    (Some(merged), was_empty)
}

/// `s` with each `\r\n`, and then each remaining `\r`, turned into `\n`.
pub open spec fn newlines_normalized(s: Seq<char>) -> Seq<char>
    decreases s.len(),
{
    if s.len() == 0 {
        Seq::empty()
    } else if s[0] == '\r' && s.len() > 1 && s[1] == '\n' {
        seq!['\n'] + newlines_normalized(s.skip(2))
    } else if s[0] == '\r' {
        seq!['\n'] + newlines_normalized(s.skip(1))
    } else {
        seq![s[0]] + newlines_normalized(s.skip(1))
    }
}

/// The text that pasting `data` inserts: line breaks made `\n`, and the
/// labels of image tokens left out (a pasted image is attached apart).
pub fn normalize_pasted_text(data: &str) -> (r: String)
    ensures
        r@ == crate::attachments::stripped(newlines_normalized(data@)),
{
    let chars = chars_of(data);
    let mut out: Vec<char> = Vec::new();
    let mut i: usize = 0;
    assert(chars@.skip(0) =~= chars@);
    assert(out@ + newlines_normalized(chars@.skip(0)) =~= newlines_normalized(data@));
    while i < chars.len()
        invariant
            i <= chars.len(),
            chars@ == data@,
            out@ + newlines_normalized(chars@.skip(i as int)) == newlines_normalized(data@),
        decreases chars.len() - i,
    {
        let ghost rest = chars@.skip(i as int);
        if chars[i] == '\r' {
            out.push('\n');
            if i + 1 < chars.len() && chars[i + 1] == '\n' {
                assert(rest.skip(2) =~= chars@.skip(i + 2));
                i = i + 2;
            } else {
                assert(rest.skip(1) =~= chars@.skip(i + 1));
                i = i + 1;
            }
        } else {
            out.push(chars[i]);
            assert(rest.skip(1) =~= chars@.skip(i + 1));
            i = i + 1;
        }
    }
    assert(chars@.skip(chars.len() as int) =~= Seq::<char>::empty());
    assert(out@ =~= newlines_normalized(data@));
    let text = string_from_chars(&out);
    crate::attachments::strip_image_token_labels(text.as_str())
}

/// What polling the terminal for the next event gave.
#[derive(Debug, Clone, Copy, PartialEq, Eq, Structural)]
pub enum CoalescedEventPoll {
    Event(Event),
    NotReady,
    StreamEnded,
    Interrupted,
    FatalInputError,
}

/// The decision on one polled event while coalescing scrolls.
#[derive(Debug, Clone, Copy, PartialEq, Eq, Structural)]
pub enum CoalesceStep {
    /// Keep polling with this run.
    Continue(PendingScroll),
    /// Stop: the run, the event to handle next (if any), and whether to exit.
    Stop(PendingScroll, Option<Event>, bool),
}

pub open spec fn coalesce_step_spec(run: PendingScroll, poll: CoalescedEventPoll, targets_chat: bool) -> CoalesceStep {
    match poll {
        CoalescedEventPoll::Event(Event::Mouse(m)) => match direction_of(m.kind) {
            Some(d) => if !targets_chat {
                CoalesceStep::Stop(run, Some(Event::Mouse(m)), false)
            } else if d == run.direction {
                CoalesceStep::Continue(
                    PendingScroll {
                        direction: d,
                        steps: if run.steps == usize::MAX { usize::MAX } else { (run.steps + 1) as usize },
                    },
                )
            } else {
                CoalesceStep::Continue(PendingScroll { direction: d, steps: 1 })
            },
            None => CoalesceStep::Stop(run, Some(Event::Mouse(m)), false),
        },
        CoalescedEventPoll::Event(e) => CoalesceStep::Stop(run, Some(e), false),
        CoalescedEventPoll::NotReady | CoalescedEventPoll::Interrupted => CoalesceStep::Stop(
            run,
            None,
            false,
        ),
        CoalescedEventPoll::StreamEnded | CoalescedEventPoll::FatalInputError => CoalesceStep::Stop(
            run,
            None,
            true,
        ),
    }
}

/// Fold one polled event into a run of scroll steps: scrolls over the chat
/// in the same direction add a step, in the other direction start a new run;
/// any other event ends the run and is handed back to be handled next; the
/// end of the input stream ends it and asks to exit. `targets_chat` tells
/// whether a polled mouse event lies over the chat area.
pub fn coalesce_step(run: PendingScroll, poll: CoalescedEventPoll, targets_chat: bool) -> (s: CoalesceStep)
    ensures
        s == coalesce_step_spec(run, poll, targets_chat),
{
    match poll {
        CoalescedEventPoll::Event(Event::Mouse(m)) => match ScrollDirection::from_mouse_event(&m) {
            Some(d) => if !targets_chat {
                CoalesceStep::Stop(run, Some(Event::Mouse(m)), false)
            } else if d == run.direction {
                CoalesceStep::Continue(PendingScroll { direction: d, steps: run.steps.saturating_add(1) })
            } else {
                CoalesceStep::Continue(PendingScroll { direction: d, steps: 1 })
            },
            None => CoalesceStep::Stop(run, Some(Event::Mouse(m)), false),
        },
        CoalescedEventPoll::Event(e) => CoalesceStep::Stop(run, Some(e), false),
        CoalescedEventPoll::NotReady | CoalescedEventPoll::Interrupted => CoalesceStep::Stop(run, None, false),
        CoalescedEventPoll::StreamEnded | CoalescedEventPoll::FatalInputError => CoalesceStep::Stop(run, None, true),
    }
}

/// The result of coalescing from `run` over polls `k..`: the pending scroll,
/// the deferred event, whether to exit, and how many polls were consumed.
pub open spec fn coalesce_from(
    run: PendingScroll,
    polls: Seq<(CoalescedEventPoll, bool)>,
    k: int,
) -> (PendingScroll, Option<Event>, bool, int)
    decreases polls.len() - k,
{
    if k < 0 || k >= polls.len() {
        (run, None, false, k)
    } else {
        match coalesce_step_spec(run, polls[k].0, polls[k].1) {
            CoalesceStep::Continue(next) => coalesce_from(next, polls, k + 1),
            CoalesceStep::Stop(r, e, x) => (r, e, x, k + 1),
        }
    }
}

/// Coalesce a scroll event with the events polled after it. `polls` holds the
/// events that polling gives, in order, each with whether it lies over the chat
/// area; polling stops at the first event that ends the run, and the number of
/// polls consumed is returned last. A first event that is not a scroll over
/// the chat starts nothing and consumes nothing.
pub fn coalesce_mouse_scroll_events(
    initial_event: MouseEvent,
    initial_targets_chat: bool,
    polls: &[(CoalescedEventPoll, bool)],
) -> (r: (Option<PendingScroll>, Option<Event>, bool, usize))
    ensures
        (direction_of(initial_event.kind) is None || !initial_targets_chat) ==> r == (
            None::<PendingScroll>,
            None::<Event>,
            false,
            0usize,
        ),
        (direction_of(initial_event.kind) is Some && initial_targets_chat) ==> ({
            let d = direction_of(initial_event.kind)->0;
            let out = coalesce_from(PendingScroll { direction: d, steps: 1 }, polls@, 0);
            &&& r.0 == Some(out.0)
            &&& r.1 == out.1
            &&& r.2 == out.2
            &&& r.3 == out.3
        }),
{
    let last_direction = match ScrollDirection::from_mouse_event(&initial_event) {
        Some(d) => d,
        None => { return (None, None, false, 0); },
    };
    if !initial_targets_chat {
        return (None, None, false, 0);
    }
    let ghost start = PendingScroll { direction: last_direction, steps: 1 };
    let mut run = PendingScroll { direction: last_direction, steps: 1 };
    let mut k: usize = 0;
    while k < polls.len()
        invariant
            k <= polls.len(),
            direction_of(initial_event.kind) == Some(last_direction),
            initial_targets_chat,
            start == (PendingScroll { direction: last_direction, steps: 1 }),
            coalesce_from(start, polls@, 0) == coalesce_from(run, polls@, k as int),
        decreases polls.len() - k,
    {
        let (poll, targets_chat) = polls[k];
        match coalesce_step(run, poll, targets_chat) {
            CoalesceStep::Continue(next) => {
                run = next;
            },
            CoalesceStep::Stop(r, deferred, exit) => {
                return (Some(r), deferred, exit, k + 1);
            },
        }
        k = k + 1;
    }
    (Some(run), None, false, k)
}

/// Frames of the progress spinner.
pub open spec fn spinner_frame(i: int) -> Seq<char> {
    if i == 0 {
        "\u{280b}"@
    } else if i == 1 {
        "\u{2819}"@
    } else if i == 2 {
        "\u{2839}"@
    } else if i == 3 {
        "\u{2838}"@
    } else if i == 4 {
        "\u{283c}"@
    } else if i == 5 {
        "\u{2834}"@
    } else if i == 6 {
        "\u{2826}"@
    } else if i == 7 {
        "\u{2827}"@
    } else if i == 8 {
        "\u{2807}"@
    } else {
        "\u{280f}"@
    }
}

/// The spinner frame for animation state `state`.
pub fn get_spinner_char(state: usize) -> (s: &'static str)
    ensures
        s@ == spinner_frame(state as int % 10),
{
    let i = state % 10;
    if i == 0 {
        "\u{280b}"
    } else if i == 1 {
        "\u{2819}"
    } else if i == 2 {
        "\u{2839}"
    } else if i == 3 {
        "\u{2838}"
    } else if i == 4 {
        "\u{283c}"
    } else if i == 5 {
        "\u{2834}"
    } else if i == 6 {
        "\u{2826}"
    } else if i == 7 {
        "\u{2827}"
    } else if i == 8 {
        "\u{2807}"
    } else {
        "\u{280f}"
    }
}


/// The primary agent used when none is chosen.
pub open spec fn default_agent_id() -> Seq<char> {
    "normal"@
}

pub fn default_primary_agent_id() -> (s: &'static str)
    ensures
        s@ == default_agent_id(),
{
    "normal"
}

/// The first index at or after `i` where `v` holds `x`.
pub open spec fn first_index_from(v: Seq<Seq<char>>, x: Seq<char>, i: int) -> Option<int>
    decreases v.len() - i,
{
    if i < 0 || i >= v.len() {
        None
    } else if v[i] == x {
        Some(i)
    } else {
        first_index_from(v, x, i + 1)
    }
}

pub open spec fn strings_view(v: Seq<String>) -> Seq<Seq<char>> {
    v.map_values(|s: String| s@)
}

/// The agent after the current one (or after the default agent when the
/// current one is unknown, or after the first), cycling around.
pub open spec fn next_agent(current: Option<Seq<char>>, available: Seq<Seq<char>>) -> Option<Seq<char>> {
    if available.len() == 0 {
        None
    } else {
        let by_current = match current {
            Some(c) => first_index_from(available, c, 0),
            None => None,
        };
        let start = match by_current {
            Some(i) => i,
            None => match first_index_from(available, default_agent_id(), 0) {
                Some(i) => i,
                None => 0,
            },
        };
        Some(available[(start + 1) % (available.len() as int)])
    }
}

fn position_of(v: &[String], x: &String) -> (r: Option<usize>)
    ensures
        match first_index_from(strings_view(v@), x@, 0) {
            Some(i) => r == Some(i as usize),
            None => r is None,
        },
{
    let ghost sv = strings_view(v@);
    let mut i: usize = 0;
    while i < v.len()
        invariant
            i <= v.len(),
            sv == strings_view(v@),
            first_index_from(sv, x@, 0) == first_index_from(sv, x@, i as int),
        decreases v.len() - i,
    {
        if v[i] == *x {
            assert(sv[i as int] == x@);
            return Some(i);
        }
        assert(sv[i as int] == v@[i as int]@);
        i = i + 1;
    }
    None
}

proof fn lemma_first_index_bounds(v: Seq<Seq<char>>, x: Seq<char>, i: int)
    requires
        0 <= i,
    ensures
        first_index_from(v, x, i) matches Some(k) ==> i <= k < v.len(),
    decreases v.len() - i,
{
    if i < v.len() {
        lemma_first_index_bounds(v, x, i + 1);
    }
}

/// The next primary agent to switch to.
pub fn next_primary_agent_id(current_agent_id: Option<&str>, available_agent_ids: &[String]) -> (r:
    Option<String>)
    ensures
        match (r, next_agent(
            match current_agent_id {
                Some(c) => Some(c@),
                None => None,
            },
            strings_view(available_agent_ids@),
        )) {
            (Some(a), Some(b)) => a@ == b,
            (None, None) => true,
            _ => false,
        },
{
    let ghost sv = strings_view(available_agent_ids@);
    if available_agent_ids.len() == 0 {
        return None;
    }
    proof {
        lemma_first_index_bounds(sv, default_agent_id(), 0);
    }
    let by_current = match current_agent_id {
        Some(c) => {
            let owned = c.to_owned();
            proof {
                lemma_first_index_bounds(sv, owned@, 0);
            }
            position_of(available_agent_ids, &owned)
        },
        None => None,
    };
    let start = match by_current {
        Some(i) => i,
        None => {
            let default_id = default_primary_agent_id().to_owned();
            match position_of(available_agent_ids, &default_id) {
                Some(i) => i,
                None => 0,
            }
        },
    };
    let next_idx = (start + 1) % available_agent_ids.len();
    let r = available_agent_ids[next_idx].clone();
    assert(sv[next_idx as int] == r@);
    Some(r)
}

/// The label shown for a primary agent: its id, or the default agent's id when empty.
pub fn format_agent_label(primary_agent_id: &str) -> (s: String)
    ensures
        primary_agent_id@.len() == 0 ==> s@ == default_agent_id(),
        primary_agent_id@.len() > 0 ==> s@ == primary_agent_id@,
{
    if primary_agent_id.is_empty() {
        default_primary_agent_id().to_owned()
    } else {
        primary_agent_id.to_owned()
    }
}

/// The label of the primary agent that a session is configured with: the
/// default agent when none is set.
pub fn agent_label_from_config(primary_agent_id: Option<&str>) -> (s: String)
    ensures
        match primary_agent_id {
            Some(id) => (id@.len() == 0 ==> s@ == default_agent_id()) && (id@.len() > 0 ==> s@
                == id@),
            None => s@ == default_agent_id(),
        },
{
    let agent_id = match primary_agent_id {
        Some(id) => id,
        None => default_primary_agent_id(),
    };
    format_agent_label(agent_id)
}

/// How serious a notice shown in the chat is.
#[derive(Debug, Clone, Copy, PartialEq, Eq, Structural)]
pub enum NoticeLevel {
    Warn,
    Error,
}

/// What cycling the primary agent does once the server listed its agents.
pub enum AgentCycleAction {
    /// Ask the server to switch to this agent.
    Switch(String),
    /// Show a notice instead.
    Notice { level: NoticeLevel, text: String },
}

/// The step of cycling the primary agent after the agents were listed
/// (`Err` carries the listing's error, as shown): switch to the agent after
/// the current one, or say why not.
pub fn cycle_primary_agent_step(current_agent_id: Option<&str>, listed: Result<Vec<String>, String>) -> (a:
    AgentCycleAction)
    ensures
        match listed {
            Err(e) => a matches AgentCycleAction::Notice { level, text } && level == NoticeLevel::Error
                && text@ == e@,
            Ok(ids) => match next_agent(
                match current_agent_id {
                    Some(c) => Some(c@),
                    None => None,
                },
                strings_view(ids@),
            ) {
                Some(n) => a matches AgentCycleAction::Switch(s) && s@ == n,
                None => a matches AgentCycleAction::Notice { level, text } && level == NoticeLevel::Warn
                    && text@ == "No primary agents available to cycle."@,
            },
        },
{
    match listed {
        Err(e) => AgentCycleAction::Notice { level: NoticeLevel::Error, text: e },
        Ok(ids) => match next_primary_agent_id(current_agent_id, ids.as_slice()) {
            Some(next) => AgentCycleAction::Switch(next),
            None => {
                let mut text = String::new();
                push_str(&mut text, "No primary agents available to cycle.");
                AgentCycleAction::Notice { level: NoticeLevel::Warn, text }
            },
        },
    }
}

/// A primary agent offered by the server.
#[derive(Debug, Clone)]
pub struct PrimaryAgentSpec {
    pub id: String,
    pub name: String,
    pub description: String,
}

/// "- id: description" (with " (current)" for the current agent) and a newline.
pub open spec fn agent_line(a: PrimaryAgentSpec, current: Option<Seq<char>>) -> Seq<char> {
    "- "@ + a.id@ + ": "@ + a.description@ + (if current == Some(a.id@) { " (current)"@ } else { Seq::empty() }) + "\n"@
}

pub open spec fn agent_lines(agents: Seq<PrimaryAgentSpec>, current: Option<Seq<char>>) -> Seq<char>
    decreases agents.len(),
{
    if agents.len() == 0 {
        Seq::empty()
    } else {
        agent_lines(agents.drop_last(), current) + agent_line(agents.last(), current)
    }
}

/// The list of primary agents, marking the current one.
pub fn format_available_primary_agents(agents: &[PrimaryAgentSpec], current_agent: Option<&str>) -> (s:
    String)
    ensures
        agents@.len() == 0 ==> s@ == "No primary agents available."@,
        agents@.len() > 0 ==> s@ == trim_end_seq(
            "Available primary agents:\n"@ + agent_lines(
                agents@,
                match current_agent {
                    Some(c) => Some(c@),
                    None => None,
                },
            ),
        ),
{
    if agents.len() == 0 {
        return "No primary agents available.".to_owned();
    }
    let ghost cur = match current_agent {
        Some(c) => Some(c@),
        None => None,
    };
    let current_owned: Option<String> = match current_agent {
        Some(c) => Some(c.to_owned()),
        None => None,
    };
    let mut output = "Available primary agents:\n".to_owned();
    let mut i: usize = 0;
    while i < agents.len()
        invariant
            i <= agents.len(),
            cur == match current_agent {
                Some(c) => Some(c@),
                None => None::<Seq<char>>,
            },
            match current_owned {
                Some(c) => cur == Some(c@),
                None => cur is None,
            },
            output@ == "Available primary agents:\n"@ + agent_lines(agents@.take(i as int), cur),
        decreases agents.len() - i,
    {
        let agent = &agents[i];
        let is_current = match &current_owned {
            Some(c) => *c == agent.id,
            None => false,
        };
        push_str(&mut output, "- ");
        push_str(&mut output, agent.id.as_str());
        push_str(&mut output, ": ");
        push_str(&mut output, agent.description.as_str());
        if is_current {
            push_str(&mut output, " (current)");
        }
        push_str(&mut output, "\n");
        proof {
            assert(agents@.take(i + 1).drop_last() =~= agents@.take(i as int));
            assert(agents@.take(i + 1).last() == *agent);
        }
        i = i + 1;
        assert(output@ =~= "Available primary agents:\n"@ + agent_lines(agents@.take(i as int), cur));
    }
    assert(agents@.take(agents.len() as int) =~= agents@);
    let chars = chars_of(output.as_str());
    let end = trim_end_index(chars.as_slice(), 0, chars.len());
    assert(chars@.subrange(0, chars.len() as int) =~= chars@);
    let kept = sub_chars(chars.as_slice(), 0, end);
    string_from_chars(kept.as_slice())
}

/// The outcome of a compaction request.
#[derive(Debug, Clone)]
pub enum CompactResult {
    Success(String),
    Failed(String),
    Cancelled,
    InsufficientMessages,
}

/// A response to a core command.
#[derive(Debug, Clone)]
pub enum CommandResponse {
    Text(String),
    Compact(CompactResult),
}

pub open spec fn command_response_text(resp: CommandResponse) -> Seq<char> {
    match resp {
        CommandResponse::Text(t) => t@,
        CommandResponse::Compact(CompactResult::Success(_)) => "Compaction complete."@,
        CommandResponse::Compact(CompactResult::Failed(e)) => "Compaction failed: "@ + e@,
        CommandResponse::Compact(CompactResult::Cancelled) => "Compact cancelled."@,
        CommandResponse::Compact(CompactResult::InsufficientMessages) => "Not enough messages to compact."@,
    }
}

/// The text shown for a command response.
pub fn format_command_response(resp: &CommandResponse) -> (s: String)
    ensures
        s@ == command_response_text(*resp),
{
    match resp {
        CommandResponse::Text(text) => text.clone(),
        CommandResponse::Compact(result) => match result {
            CompactResult::Success(_) => "Compaction complete.".to_owned(),
            CompactResult::Failed(error) => {
                let mut s = "Compaction failed: ".to_owned();
                push_str(&mut s, error.as_str());
                s
            },
            CompactResult::Cancelled => "Compact cancelled.".to_owned(),
            CompactResult::InsufficientMessages => "Not enough messages to compact.".to_owned(),
        },
    }
}

/// Longest preview of an edited message, in characters.
pub const EDIT_PREVIEW_MAX_LEN: usize = 40;

/// The first line of `s` at or after `i` that is not blank, trimmed (empty if none).
pub open spec fn first_nonblank_line(s: Seq<char>, i: int) -> Seq<char>
    decreases s.len() - i,
{
    if i < 0 || i >= s.len() {
        Seq::empty()
    } else {
        let e = line_end_of(s, i);
        let line = trim_seq(s.subrange(i, e));
        if line.len() > 0 {
            line
        } else if e < s.len() && e >= i {
            first_nonblank_line(s, e + 1)
        } else {
            Seq::empty()
        }
    }
}

/// The preview of a message being edited: its first non-blank line, trimmed,
/// cut to [`EDIT_PREVIEW_MAX_LEN`] characters with an ellipsis; none when the
/// message has no non-blank line.
pub open spec fn preview_text(content: Seq<char>) -> Option<Seq<char>> {
    let line = first_nonblank_line(content, 0);
    if line.len() == 0 {
        None
    } else if line.len() <= EDIT_PREVIEW_MAX_LEN {
        Some(line)
    } else {
        Some(line.take(EDIT_PREVIEW_MAX_LEN as int).push('\u{2026}'))
    }
}

proof fn lemma_line_end_ge(s: Seq<char>, i: int)
    requires
        0 <= i <= s.len(),
    ensures
        i <= line_end_of(s, i) <= s.len(),
        line_end_of(s, i) < s.len() ==> s[line_end_of(s, i)] == '\n',
    decreases s.len() - i,
{
    if i < s.len() && s[i] != '\n' {
        lemma_line_end_ge(s, i + 1);
    }
}

/// The preview shown while editing a message with this content.
pub fn editing_preview(content: &str) -> (r: Option<String>)
    ensures
        match (r, preview_text(content@)) {
            (Some(a), Some(b)) => a@ == b,
            (None, None) => true,
            _ => false,
        },
{
    let chars = chars_of(content);
    let n = chars.len();
    let mut i: usize = 0;
    let mut line: Vec<char> = Vec::new();
    let mut done = false;
    while !done && i < n
        invariant
            n == chars@.len(),
            chars@ == content@,
            i <= n,
            done ==> line@ == first_nonblank_line(content@, 0) && line@.len() > 0,
            !done ==> first_nonblank_line(content@, 0) == first_nonblank_line(content@, i as int) && line@.len() == 0,
        decreases n - i + if done { 0int } else { 1int },
    {
        proof {
            lemma_line_end_ge(chars@, i as int);
        }
        let mut e = i;
        while e < n && chars[e] != '\n'
            invariant
                i <= e <= n,
                n == chars@.len(),
                line_end_of(chars@, e as int) == line_end_of(chars@, i as int),
            decreases n - e,
        {
            e = e + 1;
        }
        let trimmed = trim_chars(chars.as_slice(), i, e);
        if trimmed.len() > 0 {
            line = trimmed;
            done = true;
        } else if e >= n {
            i = n;
        } else {
            i = e + 1;
        }
    }
    if line.len() == 0 {
        return None;
    }
    let mut preview = if line.len() <= EDIT_PREVIEW_MAX_LEN {
        string_from_chars(line.as_slice())
    } else {
        let head = sub_chars(line.as_slice(), 0, EDIT_PREVIEW_MAX_LEN);
        string_from_chars(head.as_slice())
    };
    if line.len() > EDIT_PREVIEW_MAX_LEN {
        push_char(&mut preview, '\u{2026}');
    }
    Some(preview)
}

/// Rows scrolled per mouse wheel step.
pub const MOUSE_SCROLL_STEP: usize = 1;

/// `after` and `moved` are what scrolling `before` by `steps` wheel steps
/// in `direction` gives in input mode `mode`: nothing when the mode does
/// not let the mouse scroll the chat.
pub open spec fn scroll_steps_applied(
    mode: InputMode,
    before: crate::chat_list_state::ChatListState,
    after: crate::chat_list_state::ChatListState,
    direction: ScrollDirection,
    steps: usize,
    moved: bool,
) -> bool {
    &&& !allows_mouse_chat_scroll(mode) ==> !moved && after == before
    &&& allows_mouse_chat_scroll(mode) ==> {
        &&& after.offset == match direction {
            ScrollDirection::Up => crate::chat_list_state::scrolled_up_offset(
                before.offset,
                steps,
                before.total_content_height,
                before.last_viewport_height,
            ),
            ScrollDirection::Down => crate::chat_list_state::scrolled_down_offset(
                before.offset,
                steps,
                before.total_content_height,
                before.last_viewport_height,
            ),
        }
        &&& moved == (after.offset != before.offset)
        &&& after.user_scrolled == (moved || before.user_scrolled)
    }
}

/// Scrolls the chat by `steps` wheel steps, when the input mode lets the
/// mouse scroll the chat; whether the view moved.
pub fn apply_scroll_steps(
    mode: InputMode,
    state: &mut crate::chat_list_state::ChatListState,
    direction: ScrollDirection,
    steps: usize,
) -> (moved: bool)
    ensures
        scroll_steps_applied(mode, *old(state), *final(state), direction, steps, moved),
{
    if !mode_allows_mouse_chat_scroll(mode) {
        return false;
    }
    let amount = steps * MOUSE_SCROLL_STEP;
    match direction {
        ScrollDirection::Up => state.scroll_up(amount),
        ScrollDirection::Down => state.scroll_down(amount),
    }
}

/// Handles a single mouse event: a wheel step over the chat area scrolls
/// the chat by one step; anything else leaves it. Whether the view moved.
pub fn handle_mouse_event(
    mode: InputMode,
    state: &mut crate::chat_list_state::ChatListState,
    event: &MouseEvent,
    targets_chat_area: bool,
) -> (moved: bool)
    ensures
        match direction_of(event.kind) {
            Some(d) => if targets_chat_area {
                scroll_steps_applied(mode, *old(state), *final(state), d, 1, moved)
            } else {
                !moved && *final(state) == *old(state)
            },
            None => !moved && *final(state) == *old(state),
        },
{
    match ScrollDirection::from_mouse_event(event) {
        Some(direction) => {
            if targets_chat_area {
                apply_scroll_steps(mode, state, direction, 1)
            } else {
                false
            }
        },
        None => false,
    }
}

proof fn lemma_first_index_finds(v: Seq<Seq<char>>, i: int, j: int)
    requires
        v.no_duplicates(),
        0 <= j <= i < v.len(),
    ensures
        first_index_from(v, v[i], j) == Some(i),
    decreases i - j,
{
    if j < i {
        assert(v[j] != v[i]);
        lemma_first_index_finds(v, i, j + 1);
    }
}

/// Cycling the primary agent moves to the next agent in the list, and from
/// the last back to the first.
pub proof fn law_next_agent_cycles(available: Seq<Seq<char>>, i: int)
    requires
        available.no_duplicates(),
        0 <= i < available.len(),
    ensures
        next_agent(Some(available[i]), available) == Some(available[(i + 1) % (available.len() as int)]),
{
    lemma_first_index_finds(available, i, 0);
}

} // verus!
