use steer::blocks::ChatBlock;
use steer::chat_store::{assistant_shows_text, AssistantBlock, MessageData, MessageRow, ToolCall};
use steer::flatten::FlatEntry;

fn call(id: &str, name: &str) -> ToolCall {
    ToolCall { id: id.to_string(), name: name.to_string(), parameters: "{}".to_string() }
}

fn assistant(id: &str, shows_text: bool, calls: Vec<ToolCall>) -> MessageRow {
    MessageRow {
        id: id.to_string(),
        parent_message_id: None,
        data: MessageData::Assistant {
            content: if shows_text { vec![AssistantBlock::Text("hi".to_string())] } else { Vec::new() },
            tool_calls: calls,
        },
    }
}

fn tool(id: &str, use_id: &str, result: &str) -> MessageRow {
    MessageRow {
        id: id.to_string(),
        parent_message_id: Some("a1".to_string()),
        data: MessageData::Tool { tool_use_id: use_id.to_string(), result: result.to_string() },
    }
}

#[test]
fn test_chat_block_from_message_row() {
    let user_msg = MessageRow {
        id: "test-id".to_string(),
        parent_message_id: None,
        data: MessageData::User,
    };

    let blocks = ChatBlock::from_message_row(&user_msg, &[]);

    assert_eq!(blocks.len(), 1);
    match &blocks[0] {
        ChatBlock::Message(_) => {}
        ChatBlock::ToolInteraction { .. } => panic!("Expected Message ChatBlock"),
    }
}

#[test]
fn assistant_message_shows_text_then_each_call_with_its_result() {
    let a = assistant("a1", true, vec![call("c1", "grep"), call("c2", "bash")]);
    let t = tool("t1", "c2", "done");
    let all = [&a, &t];
    let blocks = ChatBlock::from_message_row(&a, &all);
    assert_eq!(blocks.len(), 3);
    match &blocks[0] {
        ChatBlock::Message(m) => assert_eq!(m.id, "a1"),
        _ => panic!("expected the message first"),
    }
    match &blocks[1] {
        ChatBlock::ToolInteraction { call, result } => {
            assert_eq!(call.id, "c1");
            assert_eq!(call.name, "grep");
            assert_eq!(*result, None);
        }
        _ => panic!("expected a tool interaction"),
    }
    match &blocks[2] {
        ChatBlock::ToolInteraction { call, result } => {
            assert_eq!(call.id, "c2");
            assert_eq!(result.as_deref(), Some("done"));
        }
        _ => panic!("expected a tool interaction"),
    }
}

#[test]
fn assistant_message_without_text_shows_only_its_calls() {
    let a = assistant("a1", false, vec![call("c1", "ls")]);
    let blocks = ChatBlock::from_message_row(&a, &[&a]);
    assert_eq!(blocks.len(), 1);
    assert!(matches!(&blocks[0], ChatBlock::ToolInteraction { .. }));
}

#[test]
fn answered_tool_result_shows_with_its_call() {
    let a = assistant("a1", true, vec![call("c1", "ls")]);
    let t = tool("t1", "c1", "out");
    let blocks = ChatBlock::from_message_row(&t, &[&a, &t]);
    assert!(blocks.is_empty());
}

#[test]
fn standalone_tool_result_shows_as_unknown_call() {
    let t = tool("t1", "c9", "orphan");
    let blocks = ChatBlock::from_message_row(&t, &[&t]);
    assert_eq!(blocks.len(), 1);
    match &blocks[0] {
        ChatBlock::ToolInteraction { call, result } => {
            assert_eq!(call.id, "c9");
            assert_eq!(call.name, "Unknown");
            assert_eq!(call.parameters, "null");
            assert_eq!(result.as_deref(), Some("orphan"));
        }
        _ => panic!("expected a tool interaction"),
    }
}

#[test]
fn flat_entries_report_their_id_and_whether_they_are_messages() {
    let text = FlatEntry::MessageText {
        source: 0,
        id: "m1".to_string(),
        is_edited: false,
        is_editing: false,
        is_compaction_summary: false,
    };
    let call = FlatEntry::ToolInteraction { source: 1, call: Some(0), result: None, id: "c1".to_string() };
    let meta = FlatEntry::Meta { source: 2, id: "n1".to_string() };
    assert_eq!(text.id(), "m1");
    assert_eq!(call.id(), "c1");
    assert_eq!(meta.id(), "n1");
    assert!(text.is_message());
    assert!(call.is_message());
    assert!(!meta.is_message());
}

#[test]
fn assistant_shows_text_when_some_block_shows_something() {
    assert!(!assistant_shows_text(&vec![]));
    assert!(!assistant_shows_text(&vec![AssistantBlock::Text("  \n\t".to_string())]));
    assert!(assistant_shows_text(&vec![AssistantBlock::Text(" x ".to_string())]));
    assert!(assistant_shows_text(&vec![AssistantBlock::Text(String::new()), AssistantBlock::Image]));
    assert!(assistant_shows_text(&vec![AssistantBlock::Thought]));
}

#[test]
fn blank_assistant_text_is_not_shown_as_a_message() {
    let a = MessageRow {
        id: "a1".to_string(),
        parent_message_id: None,
        data: MessageData::Assistant {
            content: vec![AssistantBlock::Text("   ".to_string())],
            tool_calls: vec![call("c1", "ls")],
        },
    };
    let blocks = ChatBlock::from_message_row(&a, &[&a]);
    assert_eq!(blocks.len(), 1);
    assert!(matches!(&blocks[0], ChatBlock::ToolInteraction { .. }));
}
