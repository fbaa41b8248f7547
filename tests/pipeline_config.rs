use memo_chater::pipeline::{
    plan_dispatch, DispatchStep, PipelineConfig, PipelineTiming, ProcessorEntry, ProcessorInfo,
};

#[test]
fn test_processor_entry() {
    let entry = ProcessorEntry::with_description("Test", "测试描述");
    assert_eq!(entry.name, "Test");
    assert_eq!(entry.description, "测试描述");
}

#[test]
fn test_empty_config() {
    let config = PipelineConfig::empty();
    assert!(config.on_user_message.is_empty());
    assert!(config.after_ai_response.is_empty());
}

#[test]
fn standard_config_lists_phases() {
    let config = PipelineConfig::standard();
    assert_eq!(config.on_user_message.len(), 2);
    assert_eq!(config.after_ai_response.len(), 4);
    assert!(config.before_ai_call.is_empty());
    assert!(!config.on_user_message[0].description.is_empty());
}

#[test]
fn minimal_config_has_simplifier() {
    let config = PipelineConfig::minimal();
    assert_eq!(config.on_user_message.len(), 1);
    assert_eq!(config.on_user_message[0].name, "HistorySimplifier");
    assert!(config.on_user_message[0].description.is_empty());
}

#[test]
fn dispatch_plan_skips_unknown_and_memoryless() {
    let config = PipelineConfig::standard();
    let registry = vec![
        ProcessorInfo { name: "HistorySimplifier".to_string(), requires_memory: true },
        ProcessorInfo { name: "ContentChunker".to_string(), requires_memory: true },
        ProcessorInfo { name: "ShortTermVectorizer".to_string(), requires_memory: true },
    ];
    let on_user = plan_dispatch(&config, PipelineTiming::OnUserMessage, &registry, true);
    assert_eq!(on_user, vec![DispatchStep::Run(0), DispatchStep::SkipUnknown]);
    let after = plan_dispatch(&config, PipelineTiming::AfterAiResponse, &registry, true);
    assert_eq!(
        after,
        vec![
            DispatchStep::SkipUnknown,
            DispatchStep::Run(1),
            DispatchStep::Run(2),
            DispatchStep::SkipUnknown
        ]
    );
    let off = plan_dispatch(&config, PipelineTiming::OnUserMessage, &registry, false);
    assert_eq!(off, vec![DispatchStep::SkipNoMemory, DispatchStep::SkipUnknown]);
}
