//! The chat store: the items of a conversation (messages and the notices,
//! tool calls and command responses attached to them), the active branch
//! tip, and which messages are compaction summaries.

use vstd::prelude::*;
use crate::text::{chars_of, trim_chars, trim_seq};

verus! {

/// A block of an assistant message other than a tool call.
#[derive(Debug, Clone)]
pub enum AssistantBlock {
    Text(String),
    Image,
    Thought,
}

/// The plain values of an [`AssistantBlock`].
pub enum AssistantBlockView {
    Text(Seq<char>),
    Image,
    Thought,
}

pub open spec fn assistant_block_view(b: AssistantBlock) -> AssistantBlockView {
    match b {
        AssistantBlock::Text(t) => AssistantBlockView::Text(t@),
        AssistantBlock::Image => AssistantBlockView::Image,
        AssistantBlock::Thought => AssistantBlockView::Thought,
    }
}

/// A block shows something: text that is not blank, an image or a thought.
pub open spec fn block_shows(b: AssistantBlock) -> bool {
    match b {
        AssistantBlock::Text(t) => trim_seq(t@).len() > 0,
        AssistantBlock::Image => true,
        AssistantBlock::Thought => true,
    }
}

/// An assistant message shows text when one of its blocks shows something.
pub open spec fn shows_text(content: Seq<AssistantBlock>) -> bool {
    exists|i: int| 0 <= i < content.len() && #[trigger] block_shows(content[i])
}

/// Whether an assistant message with these blocks shows text.
pub fn assistant_shows_text(content: &Vec<AssistantBlock>) -> (b: bool)
    ensures
        b == shows_text(content@),
{
    let mut i: usize = 0;
    while i < content.len()
        invariant
            i <= content.len(),
            forall|j: int| 0 <= j < i ==> !block_shows(#[trigger] content@[j]),
        decreases content.len() - i,
    {
        let shows = match &content[i] {
            AssistantBlock::Text(t) => {
                let c = chars_of(t.as_str());
                let trimmed = trim_chars(&c, 0, c.len());
                assert(c@.subrange(0, c@.len() as int) =~= c@);
                trimmed.len() > 0
            },
            AssistantBlock::Image => true,
            AssistantBlock::Thought => true,
        };
        if shows {
            assert(block_shows(content@[i as int]));
            return true;
        }
        i = i + 1;
    }
    false
}

/// A tool call made by an assistant message.
#[derive(Debug, Clone)]
pub struct ToolCall {
    pub id: String,
    pub name: String,
    /// The call's parameters, as JSON text.
    pub parameters: String,
}

/// What a message says, as far as the chat list needs it.
#[derive(Debug, Clone)]
pub enum MessageData {
    /// A message written by the user.
    User,
    /// A message of the assistant: its blocks other than tool calls, and
    /// the tool calls it makes, in order.
    Assistant { content: Vec<AssistantBlock>, tool_calls: Vec<ToolCall> },
    /// The result of the tool call `tool_use_id`.
    Tool { tool_use_id: String, result: String },
}

/// A conversation message, by its place in the message tree.
#[derive(Debug, Clone)]
pub struct MessageRow {
    pub id: String,
    pub parent_message_id: Option<String>,
    pub data: MessageData,
}

/// What a chat item shows.
#[derive(Debug, Clone)]
pub enum ChatItemData {
    Message(MessageRow),
    PendingToolCall { id: String, tool_call: ToolCall },
    SystemNotice { id: String },
    CoreCmdResponse { id: String },
    InFlightOperation { id: String },
    SlashInput { id: String },
    TuiCommandResponse { id: String },
}

/// An entry of the chat list, possibly attached to another item.
#[derive(Debug, Clone)]
pub struct ChatItem {
    pub parent_chat_item_id: Option<String>,
    pub data: ChatItemData,
}

/// The id of an item, by its characters.
pub open spec fn item_id(item: ChatItem) -> Seq<char> {
    match item.data {
        ChatItemData::Message(m) => m.id@,
        ChatItemData::PendingToolCall { id, .. } => id@,
        ChatItemData::SystemNotice { id } => id@,
        ChatItemData::CoreCmdResponse { id } => id@,
        ChatItemData::InFlightOperation { id } => id@,
        ChatItemData::SlashInput { id } => id@,
        ChatItemData::TuiCommandResponse { id } => id@,
    }
}

/// An optional string by its characters.
pub open spec fn opt_view(o: Option<String>) -> Option<Seq<char>> {
    match o {
        Some(s) => Some(s@),
        None => None,
    }
}

/// A copy of an optional string.
pub fn copy_opt(o: &Option<String>) -> (r: Option<String>)
    ensures
        r == *o,
{
    match o {
        Some(s) => Some(s.clone()),
        None => None,
    }
}

impl ChatItem {
    pub fn id(&self) -> (r: &String)
        ensures
            r@ == item_id(*self),
    {
        match &self.data {
            ChatItemData::Message(m) => &m.id,
            ChatItemData::PendingToolCall { id, .. } => id,
            ChatItemData::SystemNotice { id } => id,
            ChatItemData::CoreCmdResponse { id } => id,
            ChatItemData::InFlightOperation { id } => id,
            ChatItemData::SlashInput { id } => id,
            ChatItemData::TuiCommandResponse { id } => id,
        }
    }
}

/// The index of the first item with id `id`, at or after `i`.
pub open spec fn find_from(items: Seq<ChatItem>, id: Seq<char>, i: int) -> Option<int>
    decreases items.len() - i,
{
    if i < 0 || i >= items.len() {
        None
    } else if item_id(items[i]) == id {
        Some(i)
    } else {
        find_from(items, id, i + 1)
    }
}

/// The index of the first compaction entry for summary `id`, at or after `i`.
pub open spec fn find_summary_from(entries: Seq<(String, Option<String>)>, id: Seq<char>, i: int) -> Option<int>
    decreases entries.len() - i,
{
    if i < 0 || i >= entries.len() {
        None
    } else if entries[i].0@ == id {
        Some(i)
    } else {
        find_summary_from(entries, id, i + 1)
    }
}

pub proof fn lemma_find_from_bounds(items: Seq<ChatItem>, id: Seq<char>, i: int)
    requires
        0 <= i,
    ensures
        find_from(items, id, i) matches Some(k) ==> i <= k < items.len() && item_id(items[k]) == id,
        find_from(items, id, i) is None ==> forall|k: int| i <= k < items.len() ==> item_id(#[trigger] items[k]) != id,
    decreases items.len() - i,
{
    if i < items.len() {
        lemma_find_from_bounds(items, id, i + 1);
    }
}

pub proof fn lemma_find_summary_bounds(entries: Seq<(String, Option<String>)>, id: Seq<char>, i: int)
    requires
        0 <= i,
    ensures
        find_summary_from(entries, id, i) matches Some(k) ==> i <= k < entries.len() && entries[k].0@ == id,
        find_summary_from(entries, id, i) is None ==> forall|k: int| i <= k < entries.len() ==> (#[trigger] entries[k]).0@ != id,
    decreases entries.len() - i,
{
    if i < entries.len() {
        lemma_find_summary_bounds(entries, id, i + 1);
    }
}

/// The chat items of a conversation.
#[derive(Debug)]
pub struct ChatStore {
    items: Vec<ChatItem>,
    active_message_id: Option<String>,
    /// Compaction summaries, each with the last message it compacted (if known).
    compaction: Vec<(String, Option<String>)>,
}

impl ChatStore {
    pub closed spec fn items_view(&self) -> Seq<ChatItem> {
        self.items@
    }

    pub closed spec fn active_view(&self) -> Option<Seq<char>> {
        opt_view(self.active_message_id)
    }

    pub closed spec fn compaction_view(&self) -> Seq<(String, Option<String>)> {
        self.compaction@
    }

    /// The item with id `id`.
    pub open spec fn lookup(&self, id: Seq<char>) -> Option<ChatItem> {
        match find_from(self.items_view(), id, 0) {
            Some(k) => Some(self.items_view()[k]),
            None => None,
        }
    }

    /// The parent message of message `id`, when `id` is a message that has one.
    pub open spec fn parent_of(&self, id: Seq<char>) -> Option<Seq<char>> {
        match self.lookup(id) {
            Some(item) => match item.data {
                ChatItemData::Message(m) => opt_view(m.parent_message_id),
                _ => None,
            },
            None => None,
        }
    }

    /// Whether `id` is marked as a compaction summary.
    pub open spec fn summary_marked(&self, id: Seq<char>) -> bool {
        find_summary_from(self.compaction_view(), id, 0) is Some
    }

    /// The last message compacted by summary `id`.
    pub open spec fn head_of(&self, id: Seq<char>) -> Option<Seq<char>> {
        match find_summary_from(self.compaction_view(), id, 0) {
            Some(k) => opt_view(self.compaction_view()[k].1),
            None => None,
        }
    }

    /// The ids of the items, in order.
    pub open spec fn item_ids(&self) -> Seq<Seq<char>> {
        self.items_view().map_values(|it: ChatItem| item_id(it))
    }

    pub fn new() -> (s: Self)
        ensures
            s.items_view().len() == 0,
            s.active_view() is None,
            s.compaction_view().len() == 0,
    {
        ChatStore { items: Vec::new(), active_message_id: None, compaction: Vec::new() }
    }

    pub fn len(&self) -> (n: usize)
        ensures
            n == self.items_view().len(),
    {
        self.items.len()
    }

    /// The items, in the order they were added.
    pub fn items(&self) -> (v: &Vec<ChatItem>)
        ensures
            v@ == self.items_view(),
    {
        &self.items
    }

    fn position(&self, id: &String) -> (r: Option<usize>)
        ensures
            r matches Some(k) ==> find_from(self.items_view(), id@, 0) == Some(k as int),
            r is None ==> find_from(self.items_view(), id@, 0) is None,
    {
        let mut i: usize = 0;
        while i < self.items.len()
            invariant
                i <= self.items@.len(),
                find_from(self.items@, id@, 0) == find_from(self.items@, id@, i as int),
            decreases self.items@.len() - i,
        {
            if *self.items[i].id() == *id {
                return Some(i);
            }
            i = i + 1;
        }
        None
    }

    /// The item with id `id`.
    pub fn get_by_id(&self, id: &String) -> (r: Option<&ChatItem>)
        ensures
            match (r, self.lookup(id@)) {
                (Some(a), Some(b)) => *a == b,
                (None, None) => true,
                _ => false,
            },
    {
        proof {
            lemma_find_from_bounds(self.items@, id@, 0);
        }
        match self.position(id) {
            Some(k) => Some(&self.items[k]),
            None => None,
        }
    }

    /// Add an item, replacing the item with the same id if there is one.
    pub fn push(&mut self, item: ChatItem)
        ensures
            final(self).active_view() == old(self).active_view(),
            final(self).compaction_view() == old(self).compaction_view(),
            match find_from(old(self).items_view(), item_id(item), 0) {
                Some(k) => final(self).items_view() == old(self).items_view().update(k, item),
                None => final(self).items_view() == old(self).items_view().push(item),
            },
    {
        let id = item.id().clone();
        proof {
            lemma_find_from_bounds(self.items@, id@, 0);
        }
        match self.position(&id) {
            Some(k) => {
                self.items.set(k, item);
            },
            None => {
                self.items.push(item);
            },
        }
    }

    /// Add a message as a root-level item.
    pub fn add_message(&mut self, message: MessageRow)
        ensures
            final(self).active_view() == old(self).active_view(),
            final(self).compaction_view() == old(self).compaction_view(),
            ({
                let item = ChatItem { parent_chat_item_id: None, data: ChatItemData::Message(message) };
                match find_from(old(self).items_view(), message.id@, 0) {
                    Some(k) => final(self).items_view() == old(self).items_view().update(k, item),
                    None => final(self).items_view() == old(self).items_view().push(item),
                }
            }),
    {
        self.push(ChatItem { parent_chat_item_id: None, data: ChatItemData::Message(message) });
    }

    pub fn active_message_id(&self) -> (r: Option<&String>)
        ensures
            match r {
                Some(s) => self.active_view() == Some(s@),
                None => self.active_view() is None,
            },
    {
        self.active_message_id.as_ref()
    }

    pub fn set_active_message_id(&mut self, id: Option<String>)
        ensures
            final(self).active_view() == opt_view(id),
            final(self).items_view() == old(self).items_view(),
            final(self).compaction_view() == old(self).compaction_view(),
    {
        self.active_message_id = id;
    }

    fn summary_position(&self, id: &String) -> (r: Option<usize>)
        ensures
            r matches Some(k) ==> find_summary_from(self.compaction_view(), id@, 0) == Some(k as int),
            r is None ==> find_summary_from(self.compaction_view(), id@, 0) is None,
    {
        let mut i: usize = 0;
        while i < self.compaction.len()
            invariant
                i <= self.compaction@.len(),
                find_summary_from(self.compaction@, id@, 0) == find_summary_from(self.compaction@, id@, i as int),
            decreases self.compaction@.len() - i,
        {
            if self.compaction[i].0 == *id {
                return Some(i);
            }
            i = i + 1;
        }
        None
    }

    /// Mark `id` as a compaction summary (its compacted head unknown, unless already recorded).
    pub fn mark_compaction_summary(&mut self, id: String)
        ensures
            final(self).items_view() == old(self).items_view(),
            final(self).active_view() == old(self).active_view(),
            final(self).summary_marked(id@),
            forall|x: Seq<char>| x != id@ ==> final(self).head_of(x) == old(self).head_of(x)
                && final(self).summary_marked(x) == old(self).summary_marked(x),
            final(self).head_of(id@) == old(self).head_of(id@),
    {
        proof {
            lemma_find_summary_bounds(self.compaction@, id@, 0);
        }
        match self.summary_position(&id) {
            Some(_) => {},
            None => {
                let ghost before = self.compaction@;
                let ghost idv = id@;
                self.compaction.push((id, None));
                proof {
                    let after = self.compaction@;
                    lemma_summary_push(before, after);
                    assert forall|x: Seq<char>| x != idv implies self.head_of(x) == old(self).head_of(x)
                        && self.summary_marked(x) == old(self).summary_marked(x) by {
                        assert(find_summary_from(after, x, 0) == find_summary_from(before, x, 0));
                        lemma_find_summary_bounds(before, x, 0);
                        match find_summary_from(before, x, 0) {
                            Some(k) => { assert(after[k] == before[k]); },
                            None => {},
                        }
                    }
                    assert(find_summary_from(after, idv, 0) == Some(before.len() as int));
                }
            },
        }
    }

    /// Mark `id` as a compaction summary of the conversation up to `head`.
    pub fn mark_compaction_summary_with_head(&mut self, id: String, head: Option<String>)
        ensures
            final(self).items_view() == old(self).items_view(),
            final(self).active_view() == old(self).active_view(),
            final(self).summary_marked(id@),
            final(self).head_of(id@) == opt_view(head),
            forall|x: Seq<char>| x != id@ ==> final(self).head_of(x) == old(self).head_of(x)
                && final(self).summary_marked(x) == old(self).summary_marked(x),
    {
        proof {
            lemma_find_summary_bounds(self.compaction@, id@, 0);
        }
        let ghost before = self.compaction@;
        let ghost idv = id@;
        match self.summary_position(&id) {
            Some(k) => {
                self.compaction.set(k, (id, head));
                proof {
                    let after = self.compaction@;
                    lemma_summary_update(before, after, k as int);
                    assert forall|x: Seq<char>| x != idv implies self.head_of(x) == old(self).head_of(x)
                        && self.summary_marked(x) == old(self).summary_marked(x) by {
                        assert(find_summary_from(after, x, 0) == find_summary_from(before, x, 0));
                        lemma_find_summary_bounds(before, x, 0);
                        match find_summary_from(before, x, 0) {
                            Some(j) => { assert(j != k); assert(after[j] == before[j]); },
                            None => {},
                        }
                    }
                    assert(find_summary_from(after, idv, 0) == Some(k as int));
                }
            },
            None => {
                self.compaction.push((id, head));
                proof {
                    let after = self.compaction@;
                    lemma_summary_push(before, after);
                    assert forall|x: Seq<char>| x != idv implies self.head_of(x) == old(self).head_of(x)
                        && self.summary_marked(x) == old(self).summary_marked(x) by {
                        assert(find_summary_from(after, x, 0) == find_summary_from(before, x, 0));
                        lemma_find_summary_bounds(before, x, 0);
                        match find_summary_from(before, x, 0) {
                            Some(j) => { assert(after[j] == before[j]); },
                            None => {},
                        }
                    }
                    assert(find_summary_from(after, idv, 0) == Some(before.len() as int));
                }
            },
        }
    }

    pub fn is_compaction_summary(&self, id: &String) -> (b: bool)
        ensures
            b == self.summary_marked(id@),
    {
        self.summary_position(id).is_some()
    }

    /// The last message compacted by summary `id`, when recorded.
    pub fn compacted_head_for_summary(&self, id: &String) -> (r: Option<&String>)
        ensures
            match r {
                Some(h) => self.head_of(id@) == Some(h@),
                None => self.head_of(id@) is None,
            },
    {
        proof {
            lemma_find_summary_bounds(self.compaction@, id@, 0);
        }
        match self.summary_position(id) {
            Some(k) => self.compaction[k].1.as_ref(),
            None => None,
        }
    }
}

proof fn lemma_summary_push(before: Seq<(String, Option<String>)>, after: Seq<(String, Option<String>)>)
    requires
        after.len() == before.len() + 1,
        forall|k: int| 0 <= k < before.len() ==> after[k] == before[k],
        find_summary_from(before, after.last().0@, 0) is None,
    ensures
        forall|x: Seq<char>| #[trigger] find_summary_from(after, x, 0) == if x == after.last().0@ {
            Some(before.len() as int)
        } else {
            find_summary_from(before, x, 0)
        },
{
    assert forall|x: Seq<char>| #[trigger] find_summary_from(after, x, 0) == if x == after.last().0@ {
        Some(before.len() as int)
    } else {
        find_summary_from(before, x, 0)
    } by {
        lemma_summary_push_at(before, after, x, 0);
    }
}

proof fn lemma_summary_push_at(
    before: Seq<(String, Option<String>)>,
    after: Seq<(String, Option<String>)>,
    x: Seq<char>,
    i: int,
)
    requires
        0 <= i <= before.len(),
        after.len() == before.len() + 1,
        forall|k: int| 0 <= k < before.len() ==> after[k] == before[k],
        find_summary_from(before, after.last().0@, 0) is None,
    ensures
        find_summary_from(after, x, i) == if x == after.last().0@ && find_summary_from(before, x, i) is None {
            Some(before.len() as int)
        } else {
            find_summary_from(before, x, i)
        },
    decreases before.len() + 1 - i,
{
    lemma_find_summary_bounds(before, after.last().0@, 0);
    if i < before.len() {
        lemma_summary_push_at(before, after, x, i + 1);
    } else {
        assert(find_summary_from(after, x, i + 1) is None);
    }
}

proof fn lemma_summary_update(before: Seq<(String, Option<String>)>, after: Seq<(String, Option<String>)>, k: int)
    requires
        0 <= k < before.len(),
        after == before.update(k, after[k]),
        after[k].0@ == before[k].0@,
        find_summary_from(before, before[k].0@, 0) == Some(k),
    ensures
        forall|x: Seq<char>| #[trigger] find_summary_from(after, x, 0) == find_summary_from(before, x, 0),
{
    assert forall|x: Seq<char>| #[trigger] find_summary_from(after, x, 0) == find_summary_from(before, x, 0) by {
        lemma_summary_update_at(before, after, k, x, 0);
    }
}

proof fn lemma_summary_update_at(
    before: Seq<(String, Option<String>)>,
    after: Seq<(String, Option<String>)>,
    k: int,
    x: Seq<char>,
    i: int,
)
    requires
        0 <= k < before.len(),
        0 <= i <= before.len(),
        after == before.update(k, after[k]),
        after[k].0@ == before[k].0@,
    ensures
        find_summary_from(after, x, i) == find_summary_from(before, x, i),
    decreases before.len() - i,
{
    if i < before.len() {
        lemma_summary_update_at(before, after, k, x, i + 1);
    }
}

} // verus!
