//! The widget each entry of the chat list is drawn with: what its body
//! shows, and how the row around it is decorated with the theme's styles.

use vstd::prelude::*;
use crate::chat_store::{ChatItem, ChatItemData, ChatStore, MessageData};
use crate::flatten::{FlatEntry, FlatModel, call_entries, flat_model, flatten_from, flattened};

verus! {

/// The theme components a row is decorated with.
#[derive(Debug, Clone, Copy, PartialEq, Eq)]
pub enum RowStyle {
    UserMessage,
    UserMessageAccent,
    UserMessageEdit,
    UserMessageEditAccent,
    NoticeInfo,
    SystemMessageAccent,
}

/// What the body of a row shows; `source` is the position of the chat item
/// it is drawn from.
#[derive(Debug, Clone, Copy, PartialEq, Eq)]
pub enum WidgetBody {
    /// The text of a message, with an indicator when it was edited.
    Message { source: usize, edited: bool },
    /// A tool call and its result, as in the list entry.
    ToolInteraction { source: usize, call: Option<usize>, result: Option<usize> },
    SystemNotice { source: usize },
    /// The response to a command of the core, titled by the command.
    CoreCommandResponse { source: usize },
    InFlightOperation { source: usize },
    SlashInput { source: usize },
    /// The response to a command of the terminal interface, titled `/`
    /// and the command.
    TuiCommandResponse { source: usize },
}

/// A row of the chat list: its body, the accent bar and background style,
/// whether blank lines pad it above and below, and the style of a separator
/// line above it.
#[derive(Debug, Clone, Copy, PartialEq, Eq)]
pub struct WidgetSpec {
    pub body: WidgetBody,
    pub accent: Option<RowStyle>,
    pub background: Option<RowStyle>,
    pub padding_lines: bool,
    pub separator_above: Option<RowStyle>,
}

/// A row with nothing around its body.
pub open spec fn plain_row(body: WidgetBody) -> WidgetSpec {
    WidgetSpec { body, accent: None, background: None, padding_lines: false, separator_above: None }
}

/// A row with the system accent bar.
pub open spec fn accented_row(body: WidgetBody) -> WidgetSpec {
    WidgetSpec {
        body,
        accent: Some(RowStyle::SystemMessageAccent),
        background: None,
        padding_lines: false,
        separator_above: None,
    }
}

/// Whether a widget can be made for list entry `e` over `items`: a text
/// entry shows a message, and any other entry but a tool call shows an
/// item that is neither a message nor a pending tool call.
pub open spec fn model_shown(e: FlatModel, items: Seq<ChatItem>) -> bool {
    match e {
        FlatModel::MessageText(src, _, _, _, _) => 0 <= src < items.len()
            && items[src].data is Message,
        FlatModel::ToolInteraction(..) => true,
        FlatModel::Meta(src, _) => 0 <= src < items.len() && !(items[src].data is Message)
            && !(items[src].data is PendingToolCall),
    }
}

/// The row drawn for list entry `e` over `items`. A user message has the
/// user accent and background (their editing forms while it is being
/// edited) and padding lines; an assistant message that is a compaction
/// summary has an info separator above; notices, tool calls and other
/// messages are bare; the remaining items have the system accent.
pub open spec fn widget_spec_of(e: FlatEntry, items: Seq<ChatItem>) -> WidgetSpec {
    match e {
        FlatEntry::MessageText { source, is_edited, is_editing, is_compaction_summary, .. } => {
            let body = WidgetBody::Message { source, edited: is_edited };
            match items[source as int].data {
                ChatItemData::Message(row) => match row.data {
                    MessageData::User => WidgetSpec {
                        body,
                        accent: Some(
                            if is_editing {
                                RowStyle::UserMessageEditAccent
                            } else {
                                RowStyle::UserMessageAccent
                            },
                        ),
                        background: Some(
                            if is_editing {
                                RowStyle::UserMessageEdit
                            } else {
                                RowStyle::UserMessage
                            },
                        ),
                        padding_lines: true,
                        separator_above: None,
                    },
                    MessageData::Assistant { .. } => WidgetSpec {
                        separator_above: if is_compaction_summary {
                            Some(RowStyle::NoticeInfo)
                        } else {
                            None
                        },
                        ..plain_row(body)
                    },
                    MessageData::Tool { .. } => plain_row(body),
                },
                _ => plain_row(body),
            }
        },
        FlatEntry::ToolInteraction { source, call, result, .. } => plain_row(
            WidgetBody::ToolInteraction { source, call, result },
        ),
        FlatEntry::Meta { source, .. } => match items[source as int].data {
            ChatItemData::CoreCmdResponse { .. } => accented_row(
                WidgetBody::CoreCommandResponse { source },
            ),
            ChatItemData::InFlightOperation { .. } => accented_row(
                WidgetBody::InFlightOperation { source },
            ),
            ChatItemData::SlashInput { .. } => accented_row(WidgetBody::SlashInput { source }),
            ChatItemData::TuiCommandResponse { .. } => accented_row(
                WidgetBody::TuiCommandResponse { source },
            ),
            _ => plain_row(WidgetBody::SystemNotice { source }),
        },
    }
}

/// The row that list entry `entry` is drawn with, over the items of
/// `store`.
pub fn widget_spec_for(entry: &FlatEntry, store: &ChatStore) -> (w: WidgetSpec)
    requires
        model_shown(flat_model(*entry), store.items_view()),
    ensures
        w == widget_spec_of(*entry, store.items_view()),
{
    let items = store.items();
    match entry {
        FlatEntry::MessageText { source, is_edited, is_editing, is_compaction_summary, .. } => {
            let body = WidgetBody::Message { source: *source, edited: *is_edited };
            let bare = WidgetSpec {
                body,
                accent: None,
                background: None,
                padding_lines: false,
                separator_above: None,
            };
            match &items[*source].data {
                ChatItemData::Message(row) => match &row.data {
                    MessageData::User => {
                        let (accent, background) = if *is_editing {
                            (RowStyle::UserMessageEditAccent, RowStyle::UserMessageEdit)
                        } else {
                            (RowStyle::UserMessageAccent, RowStyle::UserMessage)
                        };
                        WidgetSpec {
                            body,
                            accent: Some(accent),
                            background: Some(background),
                            padding_lines: true,
                            separator_above: None,
                        }
                    },
                    MessageData::Assistant { .. } => {
                        if *is_compaction_summary {
                            WidgetSpec { separator_above: Some(RowStyle::NoticeInfo), ..bare }
                        } else {
                            bare
                        }
                    },
                    MessageData::Tool { .. } => bare,
                },
                _ => bare,
            }
        },
        FlatEntry::ToolInteraction { source, call, result, .. } => WidgetSpec {
            body: WidgetBody::ToolInteraction { source: *source, call: *call, result: *result },
            accent: None,
            background: None,
            padding_lines: false,
            separator_above: None,
        },
        FlatEntry::Meta { source, .. } => {
            let s = *source;
            let body = match &items[s].data {
                ChatItemData::CoreCmdResponse { .. } => WidgetBody::CoreCommandResponse { source: s },
                ChatItemData::InFlightOperation { .. } => WidgetBody::InFlightOperation { source: s },
                ChatItemData::SlashInput { .. } => WidgetBody::SlashInput { source: s },
                ChatItemData::TuiCommandResponse { .. } => WidgetBody::TuiCommandResponse { source: s },
                _ => WidgetBody::SystemNotice { source: s },
            };
            let accent = match body {
                WidgetBody::SystemNotice { .. } => None,
                _ => Some(RowStyle::SystemMessageAccent),
            };
            WidgetSpec { body, accent, background: None, padding_lines: false, separator_above: None }
        },
    }
}

proof fn lemma_call_entries_are_tool_calls(
    row_id: Seq<char>,
    src: int,
    calls: Seq<crate::chat_store::ToolCall>,
    j: int,
    m: Map<Seq<char>, int>,
)
    ensures
        forall|k: int|
            0 <= k < call_entries(row_id, src, calls, j, m).0.len() ==> (#[trigger] call_entries(
                row_id,
                src,
                calls,
                j,
                m,
            ).0[k]) is ToolInteraction,
    decreases calls.len() - j,
{
    if j < 0 || j >= calls.len() {
    } else {
        let cid = calls[j].id@;
        if m.contains_key(cid) {
            lemma_call_entries_are_tool_calls(row_id, src, calls, j + 1, m.remove(cid));
            let rest = call_entries(row_id, src, calls, j + 1, m.remove(cid)).0;
            assert forall|k: int|
                0 <= k < call_entries(row_id, src, calls, j, m).0.len() implies (#[trigger] call_entries(
                row_id,
                src,
                calls,
                j,
                m,
            ).0[k]) is ToolInteraction by {
                if k > 0 {
                    assert(call_entries(row_id, src, calls, j, m).0[k] == rest[k - 1]);
                }
            }
        } else {
            lemma_call_entries_are_tool_calls(row_id, src, calls, j + 1, m);
        }
    }
}

proof fn lemma_flatten_from_shown(
    store: ChatStore,
    raw: Seq<usize>,
    edited: Seq<Seq<char>>,
    editing: Option<Seq<char>>,
    pos: int,
    m: Map<Seq<char>, int>,
)
    requires
        forall|i: int| 0 <= i < raw.len() ==> (#[trigger] raw[i]) < store.items_view().len(),
    ensures
        forall|k: int|
            0 <= k < flatten_from(store, raw, edited, editing, pos, m).len() ==> model_shown(
                #[trigger] flatten_from(store, raw, edited, editing, pos, m)[k],
                store.items_view(),
            ),
    decreases raw.len() - pos,
{
    let items = store.items_view();
    let out = flatten_from(store, raw, edited, editing, pos, m);
    if pos < 0 || pos >= raw.len() {
    } else {
        let src = raw[pos] as int;
        match items[src].data {
            ChatItemData::Message(row) => match row.data {
                MessageData::Assistant { content, tool_calls } => {
                    let text = if crate::chat_store::shows_text(content@) {
                        seq![
                            FlatModel::MessageText(
                                src,
                                row.id@ + "_text"@,
                                false,
                                false,
                                store.summary_marked(row.id@),
                            ),
                        ]
                    } else {
                        Seq::empty()
                    };
                    let calls = call_entries(row.id@, src, tool_calls@, 0, m);
                    let rest = flatten_from(store, raw, edited, editing, pos + 1, calls.1);
                    lemma_call_entries_are_tool_calls(row.id@, src, tool_calls@, 0, m);
                    lemma_flatten_from_shown(store, raw, edited, editing, pos + 1, calls.1);
                    assert(out == text + calls.0 + rest);
                    assert forall|k: int| 0 <= k < out.len() implies model_shown(
                        #[trigger] out[k],
                        items,
                    ) by {
                        if k < text.len() {
                        } else if k < text.len() + calls.0.len() {
                            assert(out[k] == calls.0[k - text.len()]);
                        } else {
                            assert(out[k] == rest[k - text.len() - calls.0.len()]);
                        }
                    }
                },
                MessageData::Tool { .. } => {
                    lemma_flatten_from_shown(store, raw, edited, editing, pos + 1, m);
                    assert(out == flatten_from(store, raw, edited, editing, pos + 1, m));
                },
                MessageData::User => {
                    lemma_flatten_from_shown(store, raw, edited, editing, pos + 1, m);
                    let rest = flatten_from(store, raw, edited, editing, pos + 1, m);
                    assert forall|k: int| 0 <= k < out.len() implies model_shown(
                        #[trigger] out[k],
                        items,
                    ) by {
                        if k > 0 {
                            assert(out[k] == rest[k - 1]);
                        }
                    }
                },
            },
            _ => {
                lemma_flatten_from_shown(store, raw, edited, editing, pos + 1, m);
                let rest = flatten_from(store, raw, edited, editing, pos + 1, m);
                assert forall|k: int| 0 <= k < out.len() implies model_shown(
                    #[trigger] out[k],
                    items,
                ) by {
                    if k > 0 {
                        assert(out[k] == rest[k - 1]);
                    }
                }
            },
        }
    }
}

/// Every entry that flattening gives can be drawn: a widget is made for
/// each of them without falling outside the items.
pub proof fn law_every_flattened_entry_has_a_widget(
    store: ChatStore,
    raw: Seq<usize>,
    edited: Seq<Seq<char>>,
    editing: Option<Seq<char>>,
)
    requires
        forall|i: int| 0 <= i < raw.len() ==> (#[trigger] raw[i]) < store.items_view().len(),
    ensures
        forall|k: int|
            0 <= k < flattened(store, raw, edited, editing).len() ==> model_shown(
                #[trigger] flattened(store, raw, edited, editing)[k],
                store.items_view(),
            ),
{
    lemma_flatten_from_shown(
        store,
        raw,
        edited,
        editing,
        0,
        crate::flatten::tool_results(store.items_view(), raw),
    );
}

} // verus!
