use memo_chater::chunker::{ChunkRetry, ContentChunk, ContentChunker};
use memo_chater::message::{extract_user_message, AiContext, ChatMessage};
use memo_chater::packet::ConversationPacket;
use memo_chater::pipeline::{run_local_sequence, LocalProcessor};
use memo_chater::processors::{
    ContextCleaner, HistorySimplifier, ShortTermAssembler, ShortTermExpander,
};
use memo_chater::thinking::{strip_thinking_tags, ThinkFilter};
use memo_chater::types::{MemorySource, ShortTermMemory};

fn packet() -> ConversationPacket {
    ConversationPacket::new(
        "ast".to_string(),
        "topic".to_string(),
        "秦".to_string(),
        "诺亚".to_string(),
    )
}

fn memory(id: &str, summary: &str, kind: &str, relevance: u32, expand: bool) -> ShortTermMemory {
    ShortTermMemory {
        id: id.to_string(),
        summary: summary.to_string(),
        content: format!("{} 的详细内容", summary),
        memory_type: kind.to_string(),
        should_expand: expand,
        relevance,
        confidence: 1_000_000,
        source: MemorySource::CurrentConversation,
        timestamp: 1_704_067_200_000,
    }
}

fn has_state(p: &ConversationPacket, name: &str) -> bool {
    p.current_states.iter().any(|e| e.name == name)
}

#[test]
fn cleaner_removes_injected_user_messages() {
    let mut p = packet();
    p.set_system_message("sys");
    p.messages.push(ChatMessage::user("【系统消息-短期记忆】现在为你注入短期记忆"));
    p.messages.push(ChatMessage::user("【系统消息-短期记忆】根据秦的标记"));
    p.messages.push(ChatMessage::assistant("【系统消息-短期记忆】根据 assistant text stays"));
    p.append_user_message("hello");
    assert!(ContextCleaner::new().process(&mut p).is_ok());
    assert_eq!(p.messages.len(), 3);
    assert_eq!(p.messages[0].role, "system");
    assert_eq!(p.messages[1].role, "assistant");
    assert_eq!(p.messages[2].content, "hello");
    assert_eq!(p.user_input, "hello");
    let state = &p.current_states[0];
    assert_eq!(state.name, "ContextCleaner");
    assert_eq!(state.value["removed_count"], serde_json::Value::from(2u64));
    assert_eq!(state.value["before_count"], serde_json::Value::from(5u64));
}

#[test]
fn assembler_skips_without_memories() {
    let mut p = packet();
    p.append_user_message("hi");
    ShortTermAssembler::new().process(&mut p).unwrap();
    assert_eq!(p.messages.len(), 1);
    assert_eq!(p.current_states[0].value["skipped"], serde_json::Value::Bool(true));
    assert_eq!(
        p.current_states[0].value["reason"],
        serde_json::Value::from("no_short_term_memory")
    );
}

#[test]
fn assembler_injects_sorted_memories() {
    let mut p = packet();
    p.set_system_message("sys");
    p.append_user_message("old");
    p.append_assistant_message("old answer");
    p.append_user_message("new question");
    p.add_short_term_memory(memory("a", "低", "fact", 200_000, false));
    p.add_short_term_memory(memory("b", "高", "preference", 900_000, false));
    ShortTermAssembler::new().process(&mut p).unwrap();
    assert_eq!(p.messages.len(), 3);
    assert_eq!(p.messages[0].content, "sys");
    assert_eq!(
        p.messages[1].content,
        "【系统消息-短期记忆】现在为你注入短期记忆，你现在正在与秦进行交谈\n---短期记忆---\n[preference]高\n[fact]低\n---短期记忆结束---\n"
    );
    assert_eq!(p.messages[2].content, "new question");
    assert_eq!(p.user_input, "new question");
}

#[test]
fn expander_inserts_before_last_message() {
    let mut p = packet();
    p.append_user_message("q");
    p.add_short_term_memory(memory("a", "标题", "event", 500_000, true));
    p.add_short_term_memory(memory("b", "不展开", "fact", 500_000, false));
    ShortTermExpander::new().process(&mut p).unwrap();
    assert_eq!(p.messages.len(), 2);
    assert_eq!(
        p.messages[0].content,
        "【系统消息-短期记忆】根据秦的标记，以下记忆需要展开\n---展开的短期记忆---\n[2024-01-01 00:00:00][event]标题\n标题 的详细内容\n---短期记忆结束---"
    );
    assert_eq!(p.messages[1].content, "q");
    assert!(has_state(&p, "ShortTermExpander"));
}

#[test]
fn expander_without_marks_changes_nothing() {
    let mut p = packet();
    p.append_user_message("q");
    p.add_short_term_memory(memory("a", "x", "event", 500_000, false));
    ShortTermExpander::new().process(&mut p).unwrap();
    assert_eq!(p.messages.len(), 1);
    assert_eq!(p.current_states[0].value["expanded"], serde_json::Value::Bool(false));
}

#[test]
fn cleaner_undoes_assembler_and_expander_injections() {
    let mut p = packet();
    p.set_system_message("sys");
    p.append_user_message("q");
    p.add_short_term_memory(memory("a", "x", "event", 500_000, true));
    let steps = vec![
        LocalProcessor::HistorySimplifier,
        LocalProcessor::ShortTermAssembler,
        LocalProcessor::ShortTermExpander,
        LocalProcessor::ContextCleaner,
    ];
    let ok = run_local_sequence(&mut p, &steps);
    assert_eq!(ok, 4);
    assert_eq!(p.messages.len(), 2);
    assert_eq!(p.messages[1].content, "q");
    assert_eq!(p.user_input, "q");
    assert_eq!(p.last_processor.as_deref(), Some("ContextCleaner"));
    assert!(has_state(&p, "HistorySimplifier"));
}

#[test]
fn simplifier_leaves_context() {
    let mut p = packet();
    p.append_user_message("q");
    HistorySimplifier::new().process(&mut p).unwrap();
    assert_eq!(p.messages.len(), 1);
    assert!(has_state(&p, "HistorySimplifier"));
}

#[test]
fn chunker_skips_empty_conversation() {
    let mut p = packet();
    p.set_system_message("sys only");
    let chunker = ContentChunker::new();
    assert!(chunker.begin(&mut p).is_none());
    assert_eq!(p.current_states[0].name, "ContentChunker");
    assert_eq!(p.current_states[0].value["skipped"], serde_json::Value::Bool(true));
    assert_eq!(p.current_states[0].value["reason"], serde_json::Value::from("empty_conversation"));
}

#[test]
fn chunker_renders_transcript() {
    let chunker = ContentChunker::new();
    let messages = vec![
        ChatMessage::system("s"),
        ChatMessage::user("Hi, I'm Alice."),
        ChatMessage::assistant("Hello, Alice!"),
    ];
    assert_eq!(
        chunker.format_conversation(&messages, "秦", "诺亚"),
        "【秦】: Hi, I'm Alice.\n\n【诺亚】: Hello, Alice!"
    );
    let mut p = packet();
    p.append_user_message("Hi");
    let prompt = chunker.begin(&mut p).unwrap();
    assert!(prompt.contains("【秦】: Hi"));
    assert!(prompt.starts_with("你是一个对话内容分析专家"));
}

const ANSWER: &str = "好的\n<chunks>\n  <chunk>\n    <summary> 用户自我介绍 </summary>\n    <content><![CDATA[用户叫 Alice <b>]]></content>\n    <type>fact</type>\n  </chunk>\n  <chunk>\n    <summary>问候</summary>\n    <content>  打招呼  </content>\n  </chunk>\n</chunks>";

#[test]
fn chunker_parses_chunks() {
    let chunker = ContentChunker::new();
    let chunks = chunker.parse_chunks(ANSWER).unwrap();
    assert_eq!(chunks.len(), 2);
    assert_eq!(chunks[0].summary, "用户自我介绍");
    assert_eq!(chunks[0].content, "用户叫 Alice <b>");
    assert_eq!(chunks[0].chunk_type, "fact");
    assert_eq!(chunks[1].content, "打招呼");
    assert_eq!(chunks[1].chunk_type, "other");
}

#[test]
fn chunker_rejects_text_without_xml() {
    let chunker = ContentChunker::new();
    assert!(chunker.parse_chunks("not xml").is_err());
    assert!(chunker.try_partial_parse("not xml").is_none());
    assert!(chunker.extract_xml_content("not xml").is_err());
}

#[test]
fn chunker_tag_helpers() {
    let chunker = ContentChunker::new();
    assert_eq!(chunker.extract_tag_content("<a> x </a>", "a").as_deref(), Some("x"));
    assert_eq!(chunker.extract_tag_content("<a> x", "a"), None);
    assert_eq!(
        chunker.extract_tag_content_with_cdata("<c><![CDATA[ keep ]]></c>", "c").as_deref(),
        Some(" keep ")
    );
    assert!(chunker.parse_single_chunk("<chunk><content>x</content></chunk>").is_none());
}

#[test]
fn retry_gives_up_after_three_failures() {
    let chunker = ContentChunker::new();
    let mut retry = ChunkRetry::new();
    let mut asked = 0;
    while retry.wants_more() {
        retry.record_response(&chunker, "not xml");
        asked += 1;
    }
    assert_eq!(asked, 3);
    assert!(retry.finish().is_err());
}

#[test]
fn retry_keeps_best_partial_parse() {
    let chunker = ContentChunker::new();
    let mut retry = ChunkRetry::new();
    retry.record_failure("timeout");
    assert_eq!(retry.last_error.as_deref(), Some("调用模型失败: timeout"));
    retry.record_response(
        &chunker,
        "<chunks></chunks><chunk><summary>a</summary><content>b</content></chunk>",
    );
    assert!(retry.wants_more());
    assert_eq!(retry.best.len(), 1);
    retry.record_response(&chunker, ANSWER);
    assert!(!retry.wants_more());
    let chunks = retry.finish().unwrap();
    assert_eq!(chunks.len(), 2);
}

#[test]
fn applying_chunks_keeps_only_system_message() {
    let mut p = packet();
    p.set_system_message("sys");
    p.append_user_message("Hi, I'm Alice.");
    p.append_assistant_message("Hello, Alice!");
    let chunks = vec![ContentChunk {
        summary: "Alice".to_string(),
        content: "The user is Alice".to_string(),
        chunk_type: "fact".to_string(),
    }];
    ContentChunker::new().apply_chunks(&mut p, &chunks);
    assert_eq!(p.messages.len(), 1);
    assert_eq!(p.messages[0].role, "system");
    assert_eq!(p.short_term_memory.len(), 1);
    let m = &p.short_term_memory[0];
    assert!(m.id.starts_with("chunk_"));
    assert!(m.id.ends_with("_0"));
    assert!(m.id.len() > "chunk__0".len());
    assert_eq!(m.relevance, 1_000_000);
    assert_eq!(m.source, MemorySource::CurrentConversation);
    assert_eq!(p.current_states[0].value["chunk_count"], serde_json::Value::from(1u64));
    assert_eq!(p.user_input, "Hi, I'm Alice.");
}

#[test]
fn think_tags_are_stripped_across_chunks() {
    let mut f = ThinkFilter::new();
    let mut shown = String::new();
    shown.push_str(&f.feed("A<thi"));
    shown.push_str(&f.feed("nk>hidden</think>B"));
    assert_eq!(shown, "AB");
    let mut g = ThinkFilter::new();
    assert_eq!(g.feed("x<thinking mode=\"a\">y</thinking>z<b>w"), "xz<b>w");
}

#[test]
fn context_messages_and_last_user_text() {
    let ctx = AiContext {
        system_prompt: "p".to_string(),
        thinking_messages: vec![ChatMessage::system("t1"), ChatMessage::system("t2")],
        memory_messages: vec![],
        user_message: ChatMessage::user("u"),
        model: None,
    };
    let ms = ctx.to_messages();
    assert_eq!(ms.len(), 3);
    assert_eq!(ms[1].content, "[内部思考]\nt1\nt2");
    assert_eq!(ms[2].content, "u");
    let list = vec![ChatMessage::user("a"), ChatMessage::assistant("b"), ChatMessage::user("c")];
    assert_eq!(extract_user_message(&list), "c");
    assert_eq!(extract_user_message(&vec![]), "");
}

#[test]
fn whole_answer_loses_thinking_spans() {
    assert_eq!(strip_thinking_tags("<think>plan</think>\n Hello <thinking x=1>a\nb</thinking>there "), "Hello there");
    assert_eq!(strip_thinking_tags("  plain  "), "plain");
}
