use memo_chater::merge::merge_background;
use memo_chater::message::ChatMessage;
use memo_chater::packet::ConversationPacket;
use memo_chater::pending::PendingMemoryStore;
use memo_chater::types::{
    parse_memory_source, parse_thinking_source, MemorySource, PendingMemory, ShortTermMemory,
    ThinkingSource,
};

fn packet() -> ConversationPacket {
    ConversationPacket::new(
        "ast_001".to_string(),
        "topic_001".to_string(),
        "秦".to_string(),
        "诺亚".to_string(),
    )
}

fn memory(id: &str, summary: &str, content: &str, kind: &str, relevance: u32) -> ShortTermMemory {
    ShortTermMemory {
        id: id.to_string(),
        summary: summary.to_string(),
        content: content.to_string(),
        memory_type: kind.to_string(),
        should_expand: false,
        relevance,
        confidence: 1_000_000,
        source: MemorySource::LongTermRetrieval,
        timestamp: 0,
    }
}

#[test]
fn test_packet_creation() {
    let packet = packet();
    assert_eq!(packet.assistant_id, "ast_001");
    assert_eq!(packet.user_name, "秦");
    assert!(packet.messages.is_empty());
    assert!(packet.thinking_pool.is_empty());
    assert!(packet.short_term_memory.is_empty());
}

#[test]
fn test_thinking_pool() {
    let mut packet = packet();
    packet.add_thinking("用户询问了天气".to_string(), ThinkingSource::UserAnalysis);
    packet.add_thinking("检索到相关记忆".to_string(), ThinkingSource::MemoryRetrieval);
    assert_eq!(packet.thinking_pool.len(), 2);
    packet.end_turn();
    assert_eq!(packet.thinking_pool.len(), 2);
    packet.clear_thinking();
    assert!(packet.thinking_pool.is_empty());
}

#[test]
fn test_short_term_memory() {
    let mut packet = packet();
    let mem1 = memory("mem_1", "用户喜欢编程", "用户喜欢编程，经常讨论代码相关话题", "preference", 900_000);
    let mem2 = memory("mem_2", "用户住在北京", "用户住在北京", "fact", 700_000);
    packet.add_short_term_memory(mem1);
    packet.add_short_term_memory(mem2);
    assert_eq!(packet.short_term_memory.len(), 2);
    let sorted = packet.get_short_term_memory_sorted();
    assert_eq!(sorted[0].relevance, 900_000);
    assert_eq!(sorted[1].relevance, 700_000);
    packet.end_turn();
    assert_eq!(packet.short_term_memory.len(), 2);
    packet.decay_short_term_memory(500_000);
    assert!(packet.short_term_memory[0].relevance < 500_000);
}

#[test]
fn sorting_puts_higher_relevance_first() {
    let mut packet = packet();
    packet.add_short_term_memory(memory("low", "s", "c", "fact", 200_000));
    packet.add_short_term_memory(memory("high", "s", "c", "fact", 800_000));
    packet.add_short_term_memory(memory("low2", "s", "c", "fact", 200_000));
    let ids: Vec<&str> = packet.get_short_term_memory_sorted().iter().map(|m| m.id.as_str()).collect();
    assert_eq!(ids, vec!["high", "low", "low2"]);
}

#[test]
fn decay_drops_low_relevance() {
    let mut packet = packet();
    packet.add_short_term_memory(memory("a", "s", "c", "fact", 300_000));
    packet.add_short_term_memory(memory("b", "s", "c", "fact", 150_000));
    packet.decay_short_term_memory(500_000);
    assert_eq!(packet.short_term_memory.len(), 1);
    assert_eq!(packet.short_term_memory[0].id, "a");
    assert_eq!(packet.short_term_memory[0].relevance, 150_000);
}

#[test]
fn test_end_turn() {
    let mut packet = packet();
    let mut state = serde_json::Map::new();
    state.insert("count".to_string(), serde_json::Value::from(1));
    packet.set_processor_state("TestProcessor", serde_json::Value::Object(state));
    packet.end_turn();
    assert!(packet.current_states.is_empty());
    assert_eq!(packet.history_states.len(), 1);
    let prev = packet.get_previous_state("TestProcessor");
    assert!(prev.is_some());
    assert_eq!(prev.unwrap()["count"], serde_json::Value::from(1));
}

#[test]
fn end_turn_keeps_two_frames() {
    let mut packet = packet();
    for i in 0..4u64 {
        packet.set_processor_state("P", serde_json::Value::from(i));
        packet.append_user_message("hi");
        packet.end_turn();
        assert!(packet.history_states.len() <= 2);
        assert!(packet.current_states.is_empty());
        assert!(packet.user_input.is_empty());
        assert!(packet.ai_response.is_none());
    }
    assert_eq!(packet.history_states.len(), 2);
    assert_eq!(packet.get_previous_state("P"), Some(&serde_json::Value::from(3u64)));
}

#[test]
fn messages_and_turns() {
    let mut packet = packet();
    packet.set_system_message("sys");
    packet.append_user_message("Hi, I'm Alice.");
    packet.append_assistant_message("Hello, Alice!");
    assert_eq!(packet.messages.len(), 3);
    assert_eq!(packet.messages[0].role, "system");
    assert_eq!(packet.user_input, "Hi, I'm Alice.");
    assert_eq!(packet.ai_response.as_deref(), Some("Hello, Alice!"));
    packet.save_conversation_turn();
    assert_eq!(packet.conversation_turns.len(), 1);
    let last = packet.get_last_turn().unwrap();
    assert_eq!(last.user_message, "Hi, I'm Alice.");
    assert_eq!(last.assistant_message, "Hello, Alice!");
    assert!(last.timestamp > 0);
    packet.set_system_message("sys2");
    assert_eq!(packet.messages.len(), 3);
    assert_eq!(packet.messages[0].content, "sys2");
}

#[test]
fn save_turn_needs_both_sides() {
    let mut packet = packet();
    packet.append_user_message("only question");
    packet.save_conversation_turn();
    assert!(packet.conversation_turns.is_empty());
}

#[test]
fn source_tags_parse_with_defaults() {
    assert_eq!(parse_thinking_source("SelfReflection"), ThinkingSource::SelfReflection);
    assert_eq!(parse_thinking_source("nonsense"), ThinkingSource::UserAnalysis);
    assert_eq!(parse_memory_source("ToolResult"), MemorySource::ToolResult);
    assert_eq!(parse_memory_source(""), MemorySource::CurrentConversation);
    assert_eq!(MemorySource::LongTermRetrieval.name(), "LongTermRetrieval");
}

#[test]
fn pending_queue_is_fifo() {
    let mut q = PendingMemoryStore::new();
    assert!(q.is_empty());
    for i in 0..3 {
        q.add(PendingMemory {
            content: format!("m{}", i),
            category: "extracted".to_string(),
            importance: 700_000,
            source_session: "s".to_string(),
            created_at: i,
        });
    }
    assert_eq!(q.peek(2).len(), 2);
    assert_eq!(q.peek(2)[0].content, "m0");
    let batch = q.take_batch(2);
    assert_eq!(batch.len(), 2);
    assert_eq!(batch[1].content, "m1");
    assert_eq!(q.len(), 1);
    let rest = q.take_batch(10);
    assert_eq!(rest.len(), 1);
    assert!(q.is_empty());
}

#[test]
fn background_save_keeps_newer_turns() {
    let mut disk = packet();
    disk.append_user_message("q1");
    disk.append_assistant_message("a1");
    disk.save_conversation_turn();
    let mut background = packet();
    background.add_short_term_memory(memory("bg", "s", "c", "fact", 1_000_000));
    background.set_processor_state("MemoryCommitter", serde_json::Value::from(true));
    assert_eq!(background.conversation_turns.len(), 0);
    let merged = merge_background(disk, background);
    assert_eq!(merged.conversation_turns.len(), 1);
    assert_eq!(merged.short_term_memory.len(), 1);
    assert_eq!(merged.short_term_memory[0].id, "bg");
    assert_eq!(merged.current_states.len(), 1);
    assert_eq!(merged.current_states[0].name, "MemoryCommitter");
}

#[test]
fn background_save_without_new_turn_takes_task_packet() {
    let disk = packet();
    let mut background = packet();
    background.add_short_term_memory(memory("x", "s", "c", "fact", 1_000_000));
    let merged = merge_background(disk, background);
    assert_eq!(merged.short_term_memory.len(), 1);
    assert_eq!(merged.messages.len(), 0);
}

#[test]
fn user_message_constructors() {
    let m = ChatMessage::user("x");
    assert_eq!(m.role, "user");
    assert_eq!(ChatMessage::assistant("y").role, "assistant");
    assert_eq!(ChatMessage::system("z").content, "z");
}

#[test]
fn completing_a_turn_strips_thinking_and_records_it() {
    let mut p = packet();
    p.append_user_message("Hi, I'm Alice.");
    p.snapshot_request();
    assert_eq!(p.last_request_messages.len(), 1);
    p.complete_response("<think>who?</think>Hello, Alice!");
    assert_eq!(p.ai_response.as_deref(), Some("Hello, Alice!"));
    assert_eq!(p.messages.last().unwrap().content, "Hello, Alice!");
    assert_eq!(p.conversation_turns.len(), 1);
    assert_eq!(p.conversation_turns[0].assistant_message, "Hello, Alice!");
}

#[test]
fn failed_model_call_is_shown_as_error() {
    let mut p = packet();
    p.append_user_message("q");
    p.record_ai_failure("timeout");
    assert_eq!(p.ai_response.as_deref(), Some("[错误] timeout"));
    assert_eq!(p.messages.len(), 1);
}
