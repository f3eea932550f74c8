use steer::branch::visible_item_indices;
use steer::chat_store::{AssistantBlock, ChatItem, ChatItemData, ChatStore, MessageData, MessageRow};
use steer::flatten::flatten_items;
use steer::row_widget::{widget_spec_for, RowStyle, WidgetBody, WidgetSpec};

fn user(id: &str, parent: Option<&str>) -> MessageRow {
    MessageRow { id: id.to_string(), parent_message_id: parent.map(|p| p.to_string()), data: MessageData::User }
}

fn assistant(id: &str, parent: Option<&str>) -> MessageRow {
    MessageRow {
        id: id.to_string(),
        parent_message_id: parent.map(|p| p.to_string()),
        data: MessageData::Assistant { content: vec![AssistantBlock::Text("reply".to_string())], tool_calls: Vec::new() },
    }
}

fn meta(data: ChatItemData) -> ChatItem {
    ChatItem { parent_chat_item_id: None, data }
}

fn bare(body: WidgetBody) -> WidgetSpec {
    WidgetSpec { body, accent: None, background: None, padding_lines: false, separator_above: None }
}

fn accented(body: WidgetBody) -> WidgetSpec {
    WidgetSpec { accent: Some(RowStyle::SystemMessageAccent), ..bare(body) }
}

#[test]
fn each_list_entry_gets_its_row_widget() {
    let mut store = ChatStore::new();
    store.add_message(assistant("s", None));
    store.mark_compaction_summary_with_head("s".to_string(), None);
    store.add_message(user("u1", Some("s")));
    store.add_message(assistant("a1", Some("u1")));
    store.push(meta(ChatItemData::SystemNotice { id: "n".to_string() }));
    store.push(meta(ChatItemData::CoreCmdResponse { id: "c".to_string() }));
    store.push(meta(ChatItemData::InFlightOperation { id: "f".to_string() }));
    store.push(meta(ChatItemData::SlashInput { id: "i".to_string() }));
    store.push(meta(ChatItemData::TuiCommandResponse { id: "t".to_string() }));

    let raw = visible_item_indices(&store);
    let edited = vec!["u1".to_string()];
    let entries = flatten_items(&store, &raw, &edited, None);
    let specs: Vec<WidgetSpec> = entries.iter().map(|e| widget_spec_for(e, &store)).collect();
    assert_eq!(
        specs,
        vec![
            WidgetSpec {
                separator_above: Some(RowStyle::NoticeInfo),
                ..bare(WidgetBody::Message { source: 0, edited: false })
            },
            WidgetSpec {
                body: WidgetBody::Message { source: 1, edited: true },
                accent: Some(RowStyle::UserMessageAccent),
                background: Some(RowStyle::UserMessage),
                padding_lines: true,
                separator_above: None,
            },
            bare(WidgetBody::Message { source: 2, edited: false }),
            bare(WidgetBody::SystemNotice { source: 3 }),
            accented(WidgetBody::CoreCommandResponse { source: 4 }),
            accented(WidgetBody::InFlightOperation { source: 5 }),
            accented(WidgetBody::SlashInput { source: 6 }),
            accented(WidgetBody::TuiCommandResponse { source: 7 }),
        ]
    );
}

#[test]
fn a_message_being_edited_uses_the_editing_styles() {
    let mut store = ChatStore::new();
    store.add_message(user("u1", None));
    let raw = visible_item_indices(&store);
    let entries = flatten_items(&store, &raw, &Vec::new(), Some("u1"));
    assert_eq!(entries.len(), 1);
    let spec = widget_spec_for(&entries[0], &store);
    assert_eq!(spec.accent, Some(RowStyle::UserMessageEditAccent));
    assert_eq!(spec.background, Some(RowStyle::UserMessageEdit));
    assert!(spec.padding_lines);
    assert_eq!(spec.body, WidgetBody::Message { source: 0, edited: false });
}
