use std::collections::HashSet;

use steer::branch::{build_lineage_set, build_visible_message_set, is_visible, visible_item_indices};
use steer::flatten::{flatten_items, FlatEntry};
use steer::chat_store::{AssistantBlock, ChatItem, ChatItemData, ChatStore, MessageData, MessageRow, ToolCall};

#[derive(Clone, Copy)]
enum Role {
    User,
    Assistant,
    Tool,
}

fn message(id: &str, parent: Option<&str>, role: Role) -> MessageRow {
    let data = match role {
        Role::User => MessageData::User,
        Role::Assistant => MessageData::Assistant {
            content: vec![AssistantBlock::Text("reply".to_string())],
            tool_calls: Vec::new(),
        },
        Role::Tool => MessageData::Tool { tool_use_id: format!("call_{id}"), result: String::new() },
    };
    MessageRow { id: id.to_string(), parent_message_id: parent.map(|p| p.to_string()), data }
}

fn tool_call(id: &str) -> ToolCall {
    ToolCall { id: id.to_string(), name: "test_tool".to_string(), parameters: "{}".to_string() }
}

fn set(ids: &[&str]) -> HashSet<String> {
    ids.iter().map(|s| s.to_string()).collect()
}

fn as_set(v: &[String]) -> HashSet<String> {
    v.iter().cloned().collect()
}

fn lineage(id: &str, store: &ChatStore) -> Vec<String> {
    build_lineage_set(&id.to_string(), store)
}

fn item(store: &ChatStore, id: &str) -> ChatItem {
    store.get_by_id(&id.to_string()).unwrap().clone()
}

#[test]
fn test_build_lineage_set_basic_chain() {
    let mut store = ChatStore::new();
    store.add_message(message("root", None, Role::User));
    store.add_message(message("A", Some("root"), Role::Assistant));
    store.add_message(message("B", Some("A"), Role::User));
    store.add_message(message("C", Some("B"), Role::Assistant));

    let lineage = lineage("C", &store);
    assert_eq!(as_set(&lineage), set(&["C", "B", "A", "root"]));
}

#[test]
fn test_build_lineage_set_single_message() {
    let mut store = ChatStore::new();
    store.add_message(message("single", None, Role::User));

    let lineage = lineage("single", &store);
    assert_eq!(as_set(&lineage), set(&["single"]));
}

#[test]
fn test_build_lineage_set_invalid_id() {
    let store = ChatStore::new();

    let lineage = lineage("nonexistent", &store);

    assert_eq!(as_set(&lineage), set(&["nonexistent"]));
}

#[test]
fn test_build_visible_message_set_includes_pre_compaction_chain() {
    let mut store = ChatStore::new();
    store.add_message(message("pre_u", None, Role::User));
    store.add_message(message("pre_a", Some("pre_u"), Role::Assistant));
    store.add_message(message("summary", None, Role::Assistant));
    store.mark_compaction_summary_with_head("summary".to_string(), Some("pre_a".to_string()));
    store.add_message(message("post_u", Some("summary"), Role::User));
    store.set_active_message_id(Some("post_u".to_string()));

    let lineage = lineage("post_u", &store);
    let visible = as_set(&build_visible_message_set(&lineage, &store));

    assert!(visible.contains("summary"));
    assert!(visible.contains("post_u"));
    assert!(visible.contains("pre_a"));
    assert!(visible.contains("pre_u"));
}

#[test]
fn test_build_visible_message_set_nested_compaction_summaries() {
    let mut store = ChatStore::new();
    store.add_message(message("pre1_u", None, Role::User));
    store.add_message(message("pre1_a", Some("pre1_u"), Role::Assistant));
    store.add_message(message("summary1", None, Role::Assistant));
    store.mark_compaction_summary_with_head("summary1".to_string(), Some("pre1_a".to_string()));
    store.add_message(message("mid_u", Some("summary1"), Role::User));
    store.add_message(message("mid_a", Some("mid_u"), Role::Assistant));
    store.add_message(message("summary2", None, Role::Assistant));
    store.mark_compaction_summary_with_head("summary2".to_string(), Some("mid_a".to_string()));
    store.add_message(message("post_u", Some("summary2"), Role::User));

    let lineage = lineage("post_u", &store);
    let visible = as_set(&build_visible_message_set(&lineage, &store));

    assert!(visible.contains("pre1_u"));
    assert!(visible.contains("pre1_a"));
    assert!(visible.contains("summary1"));
    assert!(visible.contains("mid_u"));
    assert!(visible.contains("mid_a"));
    assert!(visible.contains("summary2"));
    assert!(visible.contains("post_u"));
}

#[test]
fn test_build_visible_message_set_without_compaction_mapping_matches_lineage() {
    let mut store = ChatStore::new();
    store.add_message(message("root", None, Role::User));
    store.add_message(message("leaf", Some("root"), Role::Assistant));

    let lineage = lineage("leaf", &store);
    let visible = build_visible_message_set(&lineage, &store);

    assert_eq!(as_set(&visible), as_set(&lineage));
}

#[test]
fn test_compaction_history_visibility_filters_other_branches() {
    let mut store = ChatStore::new();
    store.add_message(message("pre_root", None, Role::User));
    store.add_message(message("pre_a", Some("pre_root"), Role::Assistant));
    store.add_message(message("summary", None, Role::Assistant));
    store.mark_compaction_summary_with_head("summary".to_string(), Some("pre_a".to_string()));
    store.add_message(message("active_u", Some("summary"), Role::User));
    store.add_message(message("other_u", Some("pre_root"), Role::User));

    let raw: Vec<ChatItem> = store.items().clone();
    let lineage = lineage("active_u", &store);
    let visible = build_visible_message_set(&lineage, &store);
    let visible_ids: HashSet<String> = raw
        .iter()
        .filter_map(|item| {
            if is_visible(item, &visible, &store) {
                if let ChatItemData::Message(message) = &item.data {
                    return Some(message.id.clone());
                }
            }
            None
        })
        .collect();

    assert!(visible_ids.contains("pre_root"));
    assert!(visible_ids.contains("pre_a"));
    assert!(visible_ids.contains("summary"));
    assert!(visible_ids.contains("active_u"));
    assert!(!visible_ids.contains("other_u"));
}

#[test]
fn test_is_visible_message_in_lineage() {
    let mut store = ChatStore::new();
    store.add_message(message("msg1", None, Role::User));
    store.add_message(message("msg2", Some("msg1"), Role::Assistant));
    store.add_message(message("msg3", Some("msg1"), Role::User));

    let lineage = lineage("msg2", &store);
    let visible = build_visible_message_set(&lineage, &store);
    assert_eq!(as_set(&visible), set(&["msg2", "msg1"]));

    let lineage = build_lineage_set(&"msg3".to_string(), &store);
    let visible = build_visible_message_set(&lineage, &store);
    assert_eq!(as_set(&visible), set(&["msg3", "msg1"]));
}

#[test]
fn test_is_visible_root_meta_items() {
    let mut store = ChatStore::new();
    let visible_messages: Vec<String> = Vec::new();

    let notice = ChatItem {
        parent_chat_item_id: None,
        data: ChatItemData::SystemNotice { id: "notice1".to_string() },
    };
    store.push(notice.clone());

    assert!(is_visible(&notice, &visible_messages, &store));
}

#[test]
fn test_is_visible_attached_meta_items() {
    let mut store = ChatStore::new();
    store.add_message(message("msg1", None, Role::User));
    store.add_message(message("msg2", None, Role::User));

    let tool_call1 = ChatItem {
        parent_chat_item_id: Some("msg1".to_string()),
        data: ChatItemData::PendingToolCall { id: "tool1".to_string(), tool_call: tool_call("call1") },
    };
    store.push(tool_call1.clone());

    let tool_call2 = ChatItem {
        parent_chat_item_id: Some("msg2".to_string()),
        data: ChatItemData::PendingToolCall { id: "tool2".to_string(), tool_call: tool_call("call2") },
    };
    store.push(tool_call2.clone());

    let lineage = lineage("msg1", &store);
    let visible_messages = build_visible_message_set(&lineage, &store);

    assert!(is_visible(&tool_call1, &visible_messages, &store));
    assert!(!is_visible(&tool_call2, &visible_messages, &store));
}

#[test]
fn test_is_visible_nested_attachments() {
    let mut store = ChatStore::new();
    store.add_message(message("msg1", None, Role::User));

    let notice = ChatItem {
        parent_chat_item_id: Some("msg1".to_string()),
        data: ChatItemData::SystemNotice { id: "notice1".to_string() },
    };
    store.push(notice);

    let nested_notice = ChatItem {
        parent_chat_item_id: Some("notice1".to_string()),
        data: ChatItemData::SystemNotice { id: "notice2".to_string() },
    };
    store.push(nested_notice.clone());

    let lineage = lineage("msg1", &store);
    let visible_messages = build_visible_message_set(&lineage, &store);

    let notice1 = item(&store, "notice1");
    assert!(is_visible(&notice1, &visible_messages, &store), "notice1 should be visible");
    assert!(
        is_visible(&nested_notice, &visible_messages, &store),
        "nested_notice should be visible"
    );
}

#[test]
fn test_branch_filtering_integration() {
    let mut store = ChatStore::new();
    store.add_message(message("A", None, Role::User));

    let root_notice = ChatItem {
        parent_chat_item_id: None,
        data: ChatItemData::SystemNotice { id: "notice_root".to_string() },
    };
    store.push(root_notice.clone());

    store.add_message(message("B", Some("A"), Role::Assistant));

    let pending_tool_b = ChatItem {
        parent_chat_item_id: Some("B".to_string()),
        data: ChatItemData::PendingToolCall { id: "tool_b".to_string(), tool_call: tool_call("call_b") },
    };
    store.push(pending_tool_b.clone());

    let tool_b_message = ChatItem {
        parent_chat_item_id: None,
        data: ChatItemData::Message(message("tool_b", Some("B"), Role::Tool)),
    };
    store.push(tool_b_message.clone());

    store.add_message(message("C", Some("tool_b"), Role::User));

    let tool_c = ChatItem {
        parent_chat_item_id: Some("C".to_string()),
        data: ChatItemData::PendingToolCall { id: "tool_c".to_string(), tool_call: tool_call("call_c") },
    };
    store.push(tool_c.clone());

    let lineage_b = lineage("B", &store);
    let visible_b = build_visible_message_set(&lineage_b, &store);

    assert!(is_visible(&root_notice, &visible_b, &store));
    assert!(is_visible(&item(&store, "A"), &visible_b, &store));
    assert!(is_visible(&item(&store, "B"), &visible_b, &store));
    assert!(is_visible(&pending_tool_b, &visible_b, &store));

    assert!(!is_visible(&item(&store, "C"), &visible_b, &store));
    assert!(!is_visible(&tool_c, &visible_b, &store));

    let lineage_c = lineage("C", &store);
    let visible_c = build_visible_message_set(&lineage_c, &store);

    assert_eq!(as_set(&visible_c), set(&["A", "B", "tool_b", "C"]));

    assert!(is_visible(&root_notice, &visible_c, &store));
    assert!(is_visible(&item(&store, "A"), &visible_c, &store));
    assert!(is_visible(&item(&store, "C"), &visible_c, &store));
    assert!(is_visible(&tool_c, &visible_c, &store));

    assert!(is_visible(&item(&store, "B"), &visible_c, &store));
    assert!(is_visible(&pending_tool_b, &visible_c, &store));
}

#[test]
fn lineage_of_a_cycle_stops_at_the_first_revisit() {
    let mut store = ChatStore::new();
    store.add_message(message("x", Some("y"), Role::User));
    store.add_message(message("y", Some("x"), Role::Assistant));

    let lineage = lineage("x", &store);
    assert_eq!(lineage.len(), 2);
    assert_eq!(as_set(&lineage), set(&["x", "y"]));
}

#[test]
fn visible_item_indices_follow_the_active_branch() {
    let mut store = ChatStore::new();
    store.add_message(message("A", None, Role::User));
    store.add_message(message("B", Some("A"), Role::Assistant));
    store.add_message(message("C", Some("A"), Role::User));
    assert_eq!(visible_item_indices(&store), vec![0, 1, 2]);
    store.set_active_message_id(Some("B".to_string()));
    assert_eq!(visible_item_indices(&store), vec![0, 1]);
    store.set_active_message_id(Some("C".to_string()));
    assert_eq!(visible_item_indices(&store), vec![0, 2]);
}

#[test]
fn flattening_couples_tool_calls_with_their_results() {
    let mut store = ChatStore::new();
    store.add_message(message("u1", None, Role::User));
    store.add_message(MessageRow {
        id: "a1".to_string(),
        parent_message_id: Some("u1".to_string()),
        data: MessageData::Assistant {
            content: vec![AssistantBlock::Text("calling".to_string())],
            tool_calls: vec![tool_call("c1"), tool_call("c2"), tool_call("c1")],
        },
    });
    store.add_message(MessageRow {
        id: "t1".to_string(),
        parent_message_id: Some("a1".to_string()),
        data: MessageData::Tool { tool_use_id: "c1".to_string(), result: "ok".to_string() },
    });
    store.push(ChatItem {
        parent_chat_item_id: None,
        data: ChatItemData::PendingToolCall { id: "pending".to_string(), tool_call: tool_call("c9") },
    });
    store.push(ChatItem {
        parent_chat_item_id: None,
        data: ChatItemData::SystemNotice { id: "n1".to_string() },
    });

    let raw = visible_item_indices(&store);
    let edited = vec!["u1".to_string()];
    let entries = flatten_items(&store, &raw, &edited, Some("u1"));
    let summary: Vec<String> = entries
        .iter()
        .map(|e| match e {
            FlatEntry::MessageText { source, id, is_edited, is_editing, .. } => {
                format!("text {source} {id} {is_edited} {is_editing}")
            }
            FlatEntry::ToolInteraction { source, call, result, id } => {
                format!("tool {source} {call:?} {result:?} {id}")
            }
            FlatEntry::Meta { source, id } => format!("meta {source} {id}"),
        })
        .collect();
    assert_eq!(
        summary,
        vec![
            "text 0 u1 true true".to_string(),
            "text 1 a1_text false false".to_string(),
            "tool 1 Some(0) Some(2) a1_tool_0".to_string(),
            "tool 3 None None pending".to_string(),
            "meta 4 n1".to_string(),
        ]
    );
}

#[test]
fn restoring_messages_marks_summaries_with_their_heads() {
    let mut store = ChatStore::new();
    let messages = vec![
        message("u1", None, Role::User),
        message("a1", Some("u1"), Role::Assistant),
        message("sum", None, Role::Assistant),
        message("u2", Some("sum"), Role::User),
    ];
    steer::restore::restore_messages(&mut store, messages, &vec!["sum".to_string()]);
    assert_eq!(store.len(), 4);
    assert_eq!(store.active_message_id(), Some(&"u2".to_string()));
    assert!(store.is_compaction_summary(&"sum".to_string()));
    assert!(!store.is_compaction_summary(&"a1".to_string()));
    assert_eq!(store.compacted_head_for_summary(&"sum".to_string()), Some(&"a1".to_string()));

    let lineage = lineage("u2", &store);
    let visible = as_set(&build_visible_message_set(&lineage, &store));
    assert_eq!(visible, set(&["u2", "sum", "a1", "u1"]));
}

#[test]
fn visible_set_of_a_partial_lineage_walks_only_from_compacted_heads() {
    let mut store = ChatStore::new();
    store.add_message(message("r1", None, Role::User));
    store.add_message(message("h", Some("r1"), Role::Assistant));
    store.add_message(message("q", None, Role::User));
    store.add_message(message("s", Some("q"), Role::Assistant));
    store.mark_compaction_summary_with_head("s".to_string(), Some("h".to_string()));

    let lineage = vec!["s".to_string(), "s".to_string()];
    let visible = build_visible_message_set(&lineage, &store);
    assert_eq!(visible.len(), 3);
    assert_eq!(as_set(&visible), set(&["s", "h", "r1"]));
}
