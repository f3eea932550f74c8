//! The blocks a message is shown as: its text, and each tool call coupled
//! with the result that answered it.

use vstd::prelude::*;
use crate::chat_store::{
    assistant_block_view, assistant_shows_text, shows_text, AssistantBlock, AssistantBlockView,
    MessageData, MessageRow, ToolCall,
};
use crate::text::push_str;

verus! {

/// A block of the chat.
pub enum ChatBlock {
    /// A message of the user or the assistant.
    Message(MessageRow),
    /// A tool call and its result, when there is one.
    ToolInteraction { call: ToolCall, result: Option<String> },
}

/// The plain values of a tool call: its id, name and parameters.
pub open spec fn call_view(c: ToolCall) -> (Seq<char>, Seq<char>, Seq<char>) {
    (c.id@, c.name@, c.parameters@)
}

/// The plain values of what a message says.
pub enum DataView {
    User,
    Assistant { content: Seq<AssistantBlockView>, tool_calls: Seq<(Seq<char>, Seq<char>, Seq<char>)> },
    Tool { tool_use_id: Seq<char>, result: Seq<char> },
}

/// The plain values of a message: its id, its parent's id and what it says.
pub struct RowView {
    pub id: Seq<char>,
    pub parent_message_id: Option<Seq<char>>,
    pub data: DataView,
}

pub open spec fn row_view(m: MessageRow) -> RowView {
    RowView {
        id: m.id@,
        parent_message_id: match m.parent_message_id {
            Some(p) => Some(p@),
            None => None,
        },
        data: match m.data {
            MessageData::User => DataView::User,
            MessageData::Assistant { content, tool_calls } => DataView::Assistant {
                content: content@.map_values(|b: AssistantBlock| assistant_block_view(b)),
                tool_calls: tool_calls@.map_values(|c: ToolCall| call_view(c)),
            },
            MessageData::Tool { tool_use_id, result } => DataView::Tool {
                tool_use_id: tool_use_id@,
                result: result@,
            },
        },
    }
}

/// The plain values of a [`ChatBlock`].
pub enum BlockView {
    Message(RowView),
    ToolInteraction {
        id: Seq<char>,
        name: Seq<char>,
        parameters: Seq<char>,
        result: Option<Seq<char>>,
    },
}

pub open spec fn block_view(b: ChatBlock) -> BlockView {
    match b {
        ChatBlock::Message(m) => BlockView::Message(row_view(m)),
        ChatBlock::ToolInteraction { call, result } => BlockView::ToolInteraction {
            id: call.id@,
            name: call.name@,
            parameters: call.parameters@,
            result: match result {
                Some(r) => Some(r@),
                None => None,
            },
        },
    }
}

pub open spec fn blocks_view(v: Seq<ChatBlock>) -> Seq<BlockView> {
    v.map_values(|b: ChatBlock| block_view(b))
}

/// The result of the first tool message in `all` that answers the call `id`.
pub open spec fn result_for_from(all: Seq<&MessageRow>, id: Seq<char>, i: int) -> Option<Seq<char>>
    decreases all.len() - i,
{
    if i >= all.len() {
        None
    } else {
        match all[i].data {
            MessageData::Tool { tool_use_id, result } => if tool_use_id@ == id {
                Some(result@)
            } else {
                result_for_from(all, id, i + 1)
            },
            _ => result_for_from(all, id, i + 1),
        }
    }
}

/// The tool calls that `m` makes: none unless it is the assistant's.
pub open spec fn calls_of(m: MessageRow) -> Seq<ToolCall> {
    match m.data {
        MessageData::Assistant { tool_calls, .. } => tool_calls@,
        _ => Seq::empty(),
    }
}

/// Some assistant message in `all` makes the tool call `id`.
pub open spec fn call_made(all: Seq<&MessageRow>, id: Seq<char>) -> bool {
    exists|i: int, j: int|
        0 <= i < all.len() && 0 <= j < calls_of(*all[i]).len() && (#[trigger] calls_of(
            *all[i],
        )[j]).id@ == id
}

pub open spec fn interaction_view(c: ToolCall, all: Seq<&MessageRow>) -> BlockView {
    BlockView::ToolInteraction {
        id: c.id@,
        name: c.name@,
        parameters: c.parameters@,
        result: result_for_from(all, c.id@, 0),
    }
}

/// The blocks `m` is shown as among the messages `all`: a user message as
/// itself; an assistant message as itself when it shows text, then one
/// block per tool call with the first result that answers it; a tool result
/// as nothing when some assistant message made its call (it shows with
/// that call), else as a call of unknown name with null parameters.
pub open spec fn message_blocks(m: MessageRow, all: Seq<&MessageRow>) -> Seq<BlockView> {
    match m.data {
        MessageData::User => seq![BlockView::Message(row_view(m))],
        MessageData::Assistant { content, tool_calls } => (if shows_text(content@) {
            seq![BlockView::Message(row_view(m))]
        } else {
            Seq::empty()
        }) + tool_calls@.map_values(|c: ToolCall| interaction_view(c, all)),
        MessageData::Tool { tool_use_id, result } => if call_made(all, tool_use_id@) {
            Seq::empty()
        } else {
            seq![
                BlockView::ToolInteraction {
                    id: tool_use_id@,
                    name: "Unknown"@,
                    parameters: "null"@,
                    result: Some(result@),
                },
            ]
        },
    }
}

fn copy_tool_call(c: &ToolCall) -> (r: ToolCall)
    ensures
        r == *c,
{
    ToolCall { id: c.id.clone(), name: c.name.clone(), parameters: c.parameters.clone() }
}

fn copy_tool_calls(v: &Vec<ToolCall>) -> (r: Vec<ToolCall>)
    ensures
        r@ == v@,
        r@.map_values(|c: ToolCall| call_view(c)) == v@.map_values(|c: ToolCall| call_view(c)),
{
    let mut r: Vec<ToolCall> = Vec::new();
    let mut i: usize = 0;
    while i < v.len()
        invariant
            i <= v.len(),
            r@ == v@.take(i as int),
        decreases v.len() - i,
    {
        r.push(copy_tool_call(&v[i]));
        assert(v@.take(i + 1) =~= v@.take(i as int).push(v@[i as int]));
        i = i + 1;
    }
    assert(v@.take(v.len() as int) =~= v@);
    r
}

fn copy_blocks(v: &Vec<AssistantBlock>) -> (r: Vec<AssistantBlock>)
    ensures
        r@.map_values(|b: AssistantBlock| assistant_block_view(b)) == v@.map_values(
            |b: AssistantBlock| assistant_block_view(b),
        ),
{
    let mut r: Vec<AssistantBlock> = Vec::new();
    let mut i: usize = 0;
    while i < v.len()
        invariant
            i <= v.len(),
            r@.map_values(|b: AssistantBlock| assistant_block_view(b)) == v@.take(i as int).map_values(
                |b: AssistantBlock| assistant_block_view(b),
            ),
        decreases v.len() - i,
    {
        let b = match &v[i] {
            AssistantBlock::Text(t) => AssistantBlock::Text(t.clone()),
            AssistantBlock::Image => AssistantBlock::Image,
            AssistantBlock::Thought => AssistantBlock::Thought,
        };
        assert(assistant_block_view(b) == assistant_block_view(v@[i as int]));
        let ghost before = r@;
        r.push(b);
        assert(r@.map_values(|b: AssistantBlock| assistant_block_view(b)) =~= v@.take(i + 1).map_values(
            |b: AssistantBlock| assistant_block_view(b),
        )) by {
            assert(v@.take(i + 1) =~= v@.take(i as int).push(v@[i as int]));
            assert(r@ =~= before.push(b));
            assert(r@.map_values(|b: AssistantBlock| assistant_block_view(b)) =~= before.map_values(
                |b: AssistantBlock| assistant_block_view(b),
            ).push(assistant_block_view(b)));
            assert(v@.take(i + 1).map_values(|b: AssistantBlock| assistant_block_view(b)) =~= v@.take(
                i as int,
            ).map_values(|b: AssistantBlock| assistant_block_view(b)).push(
                assistant_block_view(v@[i as int]),
            ));
        }
        i = i + 1;
    }
    assert(v@.take(v.len() as int) =~= v@);
    r
}

fn copy_row(m: &MessageRow) -> (r: MessageRow)
    ensures
        row_view(r) == row_view(*m),
{
    let data = match &m.data {
        MessageData::User => MessageData::User,
        MessageData::Assistant { content, tool_calls } => MessageData::Assistant {
            content: copy_blocks(content),
            tool_calls: copy_tool_calls(tool_calls),
        },
        MessageData::Tool { tool_use_id, result } => MessageData::Tool {
            tool_use_id: tool_use_id.clone(),
            result: result.clone(),
        },
    };
    let parent_message_id = match &m.parent_message_id {
        Some(p) => Some(p.clone()),
        None => None,
    };
    MessageRow { id: m.id.clone(), parent_message_id, data }
}

fn find_result(all: &[&MessageRow], id: &String) -> (r: Option<String>)
    ensures
        match r {
            Some(s) => result_for_from(all@, id@, 0) == Some(s@),
            None => result_for_from(all@, id@, 0) is None,
        },
{
    let mut i: usize = 0;
    while i < all.len()
        invariant
            i <= all.len(),
            result_for_from(all@, id@, 0) == result_for_from(all@, id@, i as int),
        decreases all.len() - i,
    {
        match &all[i].data {
            MessageData::Tool { tool_use_id, result } => {
                if *tool_use_id == *id {
                    return Some(result.clone());
                }
            },
            _ => {},
        }
        i = i + 1;
    }
    None
}

fn calls_contain(calls: &Vec<ToolCall>, id: &String) -> (b: bool)
    ensures
        b == exists|j: int| 0 <= j < calls.len() && #[trigger] calls@[j].id@ == id@,
{
    let mut j: usize = 0;
    while j < calls.len()
        invariant
            j <= calls.len(),
            forall|k: int| 0 <= k < j ==> calls@[k].id@ != id@,
        decreases calls.len() - j,
    {
        if calls[j].id == *id {
            return true;
        }
        j = j + 1;
    }
    false
}

fn find_call(all: &[&MessageRow], id: &String) -> (b: bool)
    ensures
        b == call_made(all@, id@),
{
    let mut i: usize = 0;
    while i < all.len()
        invariant
            i <= all.len(),
            forall|k: int, j: int|
                0 <= k < i && 0 <= j < calls_of(*all@[k]).len() ==> (#[trigger] calls_of(
                    *all@[k],
                )[j]).id@ != id@,
        decreases all.len() - i,
    {
        match &all[i].data {
            MessageData::Assistant { tool_calls, .. } => {
                if calls_contain(tool_calls, id) {
                    proof {
                        assert(calls_of(*all@[i as int]) == tool_calls@);
                        let j = choose|j: int| 0 <= j < tool_calls.len() && #[trigger] tool_calls@[j].id@ == id@;
                        assert(calls_of(*all@[i as int])[j].id@ == id@);
                    }
                    return true;
                }
            },
            _ => {},
        }
        i = i + 1;
    }
    false
}

impl ChatBlock {
    /// The blocks that `message` is shown as, among the messages
    /// `all_messages` of the conversation.
    pub fn from_message_row(message: &MessageRow, all_messages: &[&MessageRow]) -> (blocks: Vec<
        ChatBlock,
    >)
        ensures
            blocks_view(blocks@) == message_blocks(*message, all_messages@),
    {
        match &message.data {
            MessageData::User => {
                let mut v: Vec<ChatBlock> = Vec::new();
                let row = copy_row(message);
                v.push(ChatBlock::Message(row));
                assert(blocks_view(v@) =~= message_blocks(*message, all_messages@));
                v
            },
            MessageData::Assistant { content, tool_calls } => {
                let mut blocks: Vec<ChatBlock> = Vec::new();
                let shows = assistant_shows_text(content);
                if shows {
                    let row = copy_row(message);
                    blocks.push(ChatBlock::Message(row));
                }
                let ghost head = blocks_view(blocks@);
                assert(head =~= if shows {
                    seq![BlockView::Message(row_view(*message))]
                } else {
                    Seq::<BlockView>::empty()
                });
                let mut i: usize = 0;
                while i < tool_calls.len()
                    invariant
                        i <= tool_calls.len(),
                        blocks_view(blocks@) == head + tool_calls@.take(i as int).map_values(
                            |c: ToolCall| interaction_view(c, all_messages@),
                        ),
                    decreases tool_calls.len() - i,
                {
                    let call = copy_tool_call(&tool_calls[i]);
                    let result = find_result(all_messages, &call.id);
                    let b = ChatBlock::ToolInteraction { call, result };
                    assert(block_view(b) == interaction_view(tool_calls@[i as int], all_messages@));
                    let ghost before = blocks@;
                    blocks.push(b);
                    assert(blocks@ == before.push(b));
                    assert(blocks_view(blocks@) =~= blocks_view(before).push(block_view(b)));
                    assert(tool_calls@.take(i + 1) =~= tool_calls@.take(i as int).push(
                        tool_calls@[i as int],
                    ));
                    assert(tool_calls@.take(i + 1).map_values(
                        |c: ToolCall| interaction_view(c, all_messages@),
                    ) =~= tool_calls@.take(i as int).map_values(
                        |c: ToolCall| interaction_view(c, all_messages@),
                    ).push(interaction_view(tool_calls@[i as int], all_messages@)));
                    assert(blocks_view(blocks@) =~= head + tool_calls@.take(i + 1).map_values(
                        |c: ToolCall| interaction_view(c, all_messages@),
                    ));
                    i = i + 1;
                }
                assert(tool_calls@.take(tool_calls.len() as int) =~= tool_calls@);
                blocks
            },
            MessageData::Tool { tool_use_id, result } => {
                let mut v: Vec<ChatBlock> = Vec::new();
                if !find_call(all_messages, tool_use_id) {
                    let mut name = String::new();
                    push_str(&mut name, "Unknown");
                    let mut parameters = String::new();
                    push_str(&mut parameters, "null");
                    let call = ToolCall { id: tool_use_id.clone(), name, parameters };
                    v.push(ChatBlock::ToolInteraction { call, result: Some(result.clone()) });
                }
                assert(blocks_view(v@) =~= message_blocks(*message, all_messages@));
                v
            },
        }
    }
}

} // verus!
