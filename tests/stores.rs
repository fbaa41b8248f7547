use memo_chater::config::{
    ApiResponse, DistanceMetric, FileStore, GlobalConfig, MemoryFiles, QdrantConfig,
    VectorStoreConfig,
};
use memo_chater::longterm::{
    build_filter, extract_string_list, memory_to_payload, payload_get, payload_to_memory,
    FilterCondition, LongTermMemory, PayloadValue,
};
use memo_chater::packet::ConversationPacket;
use memo_chater::packet_storage::PacketStorage;
use memo_chater::storage::{get_vector_file_path, AssistantStorage};
use memo_chater::text::{decimal_text, truncate};
use memo_chater::vectorizer::{upsert_record, upsert_records, Keyed, ShortTermVectorizer};

fn keyed(id: &str, v: u32) -> Keyed<u32> {
    Keyed { id: id.to_string(), record: v }
}

#[test]
fn upsert_replaces_or_appends() {
    let mut file = vec![keyed("a", 1)];
    upsert_record(&mut file, keyed("a", 2));
    upsert_record(&mut file, keyed("b", 3));
    assert_eq!(file.len(), 2);
    assert_eq!(file[0].record, 2);
    assert_eq!(file[1].record, 3);
}

#[test]
fn upsert_twice_changes_nothing() {
    let mut file = vec![keyed("old", 9)];
    let items = vec![keyed("x", 1), keyed("old", 2), keyed("y", 3)];
    upsert_records(&mut file, items.clone());
    let once: Vec<(String, u32)> = file.iter().map(|k| (k.id.clone(), k.record)).collect();
    upsert_records(&mut file, items);
    let twice: Vec<(String, u32)> = file.iter().map(|k| (k.id.clone(), k.record)).collect();
    assert_eq!(once, twice);
    assert_eq!(once.len(), 3);
}

#[test]
fn upsert_twice_with_repeated_ids_changes_nothing() {
    let mut file = vec![keyed("a", 0), keyed("a", 5)];
    let items = vec![keyed("a", 1), keyed("b", 2), keyed("a", 3)];
    upsert_records(&mut file, items.clone());
    let once: Vec<(String, u32)> = file.iter().map(|k| (k.id.clone(), k.record)).collect();
    assert_eq!(once, vec![("a".to_string(), 3), ("a".to_string(), 5), ("b".to_string(), 2)]);
    upsert_records(&mut file, items);
    let twice: Vec<(String, u32)> = file.iter().map(|k| (k.id.clone(), k.record)).collect();
    assert_eq!(once, twice);
}

#[test]
fn data_layout_paths() {
    assert_eq!(
        get_vector_file_path("/data", "A", "T"),
        "/data/assistants/A/topics/T/short_term_vectors.json"
    );
    let packet = ConversationPacket::new("A".to_string(), "T".to_string(), "u".to_string(), "a".to_string());
    assert_eq!(
        ShortTermVectorizer::get_vector_file_path("/data", &packet),
        "/data/assistants/A/topics/T/short_term_vectors.json"
    );
    let storage = AssistantStorage::new("/data");
    assert_eq!(storage.topic_history_path("A", "T"), "/data/assistants/A/topics/T/history.json");
    assert_eq!(storage.assistant_config_path("A"), "/data/assistants/A/config.toml");
    assert_eq!(storage.memory_dir("A"), "/data/assistants/A/memory");
    let packets = PacketStorage::new("/data".to_string());
    assert_eq!(
        packets.get_packet_path("A", "T"),
        "/data/assistants/A/topics/T/conversation_state.json"
    );
}

#[test]
fn config_helpers() {
    let q = QdrantConfig::standard();
    assert_eq!(q.url(), "http://127.0.0.1:6333");
    let external = QdrantConfig { embedded: false, external_url: "http://x:1".to_string(), ..q };
    assert_eq!(external.url(), "http://x:1");
    let g = GlobalConfig::standard();
    assert_eq!(g.assistants_dir(), "./data/assistants");
    assert!(GlobalConfig::load_default(None).is_ok());
    let v = VectorStoreConfig::new("memories_A", 1536)
        .with_url("http://h:6333")
        .with_distance(DistanceMetric::Dot);
    assert_eq!(v.qdrant_url, "http://h:6333");
    assert_eq!(v.collection_name, "memories_A");
    assert_eq!(v.distance, DistanceMetric::Dot);
    assert_eq!(decimal_text(0), "0");
    assert_eq!(decimal_text(1_704_067_200_000), "1704067200000");
}

#[test]
fn responses_and_stats() {
    let ok: ApiResponse<u32> = ApiResponse::ok(5);
    assert!(ok.success);
    assert_eq!(ok.data, Some(5));
    let err: ApiResponse<u32> = ApiResponse::err("bad");
    assert_eq!(err.error.as_deref(), Some("bad"));
    let store = FileStore {
        storage_dir: "d".to_string(),
        files: vec!["f1".to_string(), "f2".to_string()],
        memory_files: vec![MemoryFiles { memory_id: "m".to_string(), file_ids: vec!["f1".to_string()] }],
    };
    let stats = store.stats();
    assert_eq!(stats.total_files, 2);
    assert_eq!(stats.total_memories, 1);
}


#[test]
fn truncate_marks_cut_text() {
    assert_eq!(truncate("短期记忆", 2), "短期...");
    assert_eq!(truncate("ab", 2), "ab");
}

fn long_memory(session: Option<&str>, files: Vec<&str>) -> LongTermMemory {
    LongTermMemory {
        id: "m1".to_string(),
        content: "likes tea".to_string(),
        category: "preference".to_string(),
        importance: 700_000,
        access_count: 3,
        last_accessed: 1_700_000_100,
        created_at: 1_700_000_000,
        source_session: session.map(|s| s.to_string()),
        file_refs: files.into_iter().map(|s| s.to_string()).collect(),
        tags: vec![],
    }
}

#[test]
fn payload_has_fixed_schema_and_reads_back() {
    let m = long_memory(Some("s1"), vec!["f1", "f2"]);
    let p = memory_to_payload(&m);
    let keys: Vec<&str> = p.iter().map(|(k, _)| k.as_str()).collect();
    assert_eq!(
        keys,
        vec![
            "id", "content", "category", "importance", "access_count", "last_accessed",
            "created_at", "source_session", "file_refs"
        ]
    );
    assert!(matches!(payload_get(&p, "importance"), Some(PayloadValue::Score(700_000))));
    assert!(payload_get(&p, "tags").is_none());
    assert_eq!(extract_string_list(&p, "file_refs"), vec!["f1".to_string(), "f2".to_string()]);
    let back = payload_to_memory(&p).unwrap();
    assert_eq!(back.id, "m1");
    assert_eq!(back.access_count, 3);
    assert_eq!(back.created_at, 1_700_000_000);
    assert_eq!(back.source_session.as_deref(), Some("s1"));
    assert_eq!(back.file_refs.len(), 2);
    assert!(back.tags.is_empty());
    let mut bare = memory_to_payload(&long_memory(None, vec![]));
    assert_eq!(bare.len(), 7);
    bare.remove(0);
    assert!(payload_to_memory(&bare).is_none());
}

#[test]
fn long_term_filters() {
    assert!(build_filter(None, None).is_none());
    let f = build_filter(Some("fact"), Some(500_000)).unwrap();
    assert_eq!(f.must.len(), 2);
    assert!(matches!(&f.must[0], FilterCondition::Match { field, .. } if field == "category"));
    assert!(matches!(&f.must[1], FilterCondition::Range { gte: Some(500_000), lte: None, .. }));
    assert_eq!(build_filter(None, Some(1)).unwrap().must.len(), 1);
}

#[test]
fn vectorizer_skip_and_dimension_rule() {
    let v = ShortTermVectorizer::new();
    let mut p = ConversationPacket::new("A".to_string(), "T".to_string(), "u".to_string(), "a".to_string());
    assert!(!v.begin(&mut p));
    assert_eq!(p.current_states[0].name, "ShortTermVectorizer");
    assert_eq!(p.current_states[0].value["reason"], serde_json::Value::from("no_memories"));
    assert_eq!(ShortTermVectorizer::next_dimension(0, 1536), 1536);
    assert_eq!(ShortTermVectorizer::next_dimension(768, 1536), 768);
}
