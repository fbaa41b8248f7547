//! The pipeline: which processors run at each phase of a turn, and the
//! dispatcher's decisions about each configured entry.

use vstd::prelude::*;
use crate::packet::ConversationPacket;
use crate::packet::has_state;
use crate::processors::{
    ContextCleaner, HistorySimplifier, ProcessorError, ShortTermAssembler, ShortTermExpander,
    assembled, cleaned, expanded, keeps_turn, simplified,
};
use crate::text::text_eq;

verus! {

/// One configured step: a processor name and what it is for.
#[derive(Debug, Clone)]
pub struct ProcessorEntry {
    pub name: String,
    pub description: String,
}

impl ProcessorEntry {
    pub fn new(name: &str) -> (r: ProcessorEntry)
        ensures
            r.name@ == name@,
            r.description@.len() == 0,
    {
        ProcessorEntry { name: String::from_str(name), description: String::new() }
    }

    pub fn with_description(name: &str, description: &str) -> (r: ProcessorEntry)
        ensures
            r.name@ == name@,
            r.description@ == description@,
    {
        ProcessorEntry { name: String::from_str(name), description: String::from_str(description) }
    }
}

/// The six phases of a turn, in the order they occur.
#[derive(Debug, Clone, Copy, PartialEq, Eq, Structural)]
pub enum PipelineTiming {
    OnUserMessage,
    BeforeAiCall,
    OnStreamStart,
    OnStreamChunk,
    AfterAiResponse,
    BackgroundProcess,
}

/// The processors of each phase, in order.
#[derive(Debug, Clone)]
pub struct PipelineConfig {
    pub on_user_message: Vec<ProcessorEntry>,
    pub before_ai_call: Vec<ProcessorEntry>,
    pub on_stream_start: Vec<ProcessorEntry>,
    pub on_stream_chunk: Vec<ProcessorEntry>,
    pub after_ai_response: Vec<ProcessorEntry>,
    pub background_process: Vec<ProcessorEntry>,
}

impl PipelineConfig {
    pub open spec fn phase(&self, timing: PipelineTiming) -> Seq<ProcessorEntry> {
        match timing {
            PipelineTiming::OnUserMessage => self.on_user_message@,
            PipelineTiming::BeforeAiCall => self.before_ai_call@,
            PipelineTiming::OnStreamStart => self.on_stream_start@,
            PipelineTiming::OnStreamChunk => self.on_stream_chunk@,
            PipelineTiming::AfterAiResponse => self.after_ai_response@,
            PipelineTiming::BackgroundProcess => self.background_process@,
        }
    }

    /// No processor at any phase.
    pub fn empty() -> (r: PipelineConfig)
        ensures
            r.on_user_message@.len() == 0,
            r.before_ai_call@.len() == 0,
            r.on_stream_start@.len() == 0,
            r.on_stream_chunk@.len() == 0,
            r.after_ai_response@.len() == 0,
            r.background_process@.len() == 0,
    {
        PipelineConfig {
            on_user_message: Vec::new(),
            before_ai_call: Vec::new(),
            on_stream_start: Vec::new(),
            on_stream_chunk: Vec::new(),
            after_ai_response: Vec::new(),
            background_process: Vec::new(),
        }
    }

    /// Only the history simplifier, when the user's message arrives.
    pub fn minimal() -> (r: PipelineConfig)
        ensures
            r.on_user_message@.len() == 1,
            r.on_user_message@[0].name@ == "HistorySimplifier"@,
            r.on_user_message@[0].description@.len() == 0,
            r.before_ai_call@.len() == 0,
            r.on_stream_start@.len() == 0,
            r.on_stream_chunk@.len() == 0,
            r.after_ai_response@.len() == 0,
            r.background_process@.len() == 0,
    {
        let mut first: Vec<ProcessorEntry> = Vec::new();
        first.push(ProcessorEntry::new("HistorySimplifier"));
        PipelineConfig {
            on_user_message: first,
            before_ai_call: Vec::new(),
            on_stream_start: Vec::new(),
            on_stream_chunk: Vec::new(),
            after_ai_response: Vec::new(),
            background_process: Vec::new(),
        }
    }

    /// The stock pipeline: simplify and assemble on the user's message;
    /// after the response, the subconscious pass, chunking, vectorizing and
    /// committing.
    pub fn standard() -> (r: PipelineConfig)
        ensures
            r.on_user_message@.len() == 2,
            r.on_user_message@[0].name@ == "HistorySimplifier"@,
            r.on_user_message@[1].name@ == "MemoryAssembler"@,
            r.after_ai_response@.len() == 4,
            r.after_ai_response@[0].name@ == "SubconsciousProcessor"@,
            r.after_ai_response@[1].name@ == "ContentChunker"@,
            r.after_ai_response@[2].name@ == "ShortTermVectorizer"@,
            r.after_ai_response@[3].name@ == "MemoryCommitter"@,
            r.before_ai_call@.len() == 0,
            r.on_stream_start@.len() == 0,
            r.on_stream_chunk@.len() == 0,
            r.background_process@.len() == 0,
            forall|i: int|
                0 <= i < r.on_user_message@.len() ==> r.on_user_message@[i].description@.len() > 0,
    {
        proof {
            reveal_strlit("简化/压缩历史对话，减少上下文长度");
            reveal_strlit("将检索到的记忆装配到上下文中");
        }
        let mut first: Vec<ProcessorEntry> = Vec::new();
        first.push(ProcessorEntry::with_description("HistorySimplifier", "简化/压缩历史对话，减少上下文长度"));
        first.push(ProcessorEntry::with_description("MemoryAssembler", "将检索到的记忆装配到上下文中"));
        let mut after: Vec<ProcessorEntry> = Vec::new();
        after.push(ProcessorEntry::with_description("SubconsciousProcessor", "处理潜意识层面的信息"));
        after.push(ProcessorEntry::with_description("ContentChunker", "将内容切分成适合存储的块"));
        after.push(
            ProcessorEntry::with_description("ShortTermVectorizer", "将短期记忆向量化并存储到话题文件"),
        );
        after.push(ProcessorEntry::with_description("MemoryCommitter", "将记忆块提交到存储系统"));
        PipelineConfig {
            on_user_message: first,
            before_ai_call: Vec::new(),
            on_stream_start: Vec::new(),
            on_stream_chunk: Vec::new(),
            after_ai_response: after,
            background_process: Vec::new(),
        }
    }

    pub fn entries(&self, timing: PipelineTiming) -> (r: &Vec<ProcessorEntry>)
        ensures
            r@ == self.phase(timing),
    {
        match timing {
            PipelineTiming::OnUserMessage => &self.on_user_message,
            PipelineTiming::BeforeAiCall => &self.before_ai_call,
            PipelineTiming::OnStreamStart => &self.on_stream_start,
            PipelineTiming::OnStreamChunk => &self.on_stream_chunk,
            PipelineTiming::AfterAiResponse => &self.after_ai_response,
            PipelineTiming::BackgroundProcess => &self.background_process,
        }
    }
}

#[derive(Debug, Clone)]
pub enum DispatcherError {
    ContextCreation(String),
    ProcessorFailed(String),
}

/// A registered processor as the dispatcher sees it.
#[derive(Debug, Clone)]
pub struct ProcessorInfo {
    pub name: String,
    pub requires_memory: bool,
}

/// What the dispatcher does with one configured entry.
#[derive(Debug, Clone, PartialEq, Eq)]
pub enum DispatchStep {
    /// Run the registered processor at this index.
    Run(usize),
    /// No processor of that name is registered.
    SkipUnknown,
    /// The processor needs memory and the topic has it off.
    SkipNoMemory,
}

pub open spec fn registered_index(registry: Seq<ProcessorInfo>, name: Seq<char>) -> Option<int>
    decreases registry.len(),
{
    if registry.len() == 0 {
        None
    } else {
        match registered_index(registry.drop_last(), name) {
            Some(i) => Some(i),
            None => if registry.last().name@ == name {
                Some(registry.len() - 1)
            } else {
                None
            },
        }
    }
}

pub open spec fn step_for(registry: Seq<ProcessorInfo>, name: Seq<char>, memory_enabled: bool) -> DispatchStep {
    match registered_index(registry, name) {
        Some(i) => if registry[i].requires_memory && !memory_enabled {
            DispatchStep::SkipNoMemory
        } else {
            DispatchStep::Run(i as usize)
        },
        None => DispatchStep::SkipUnknown,
    }
}

proof fn lemma_registered_prefix(s: Seq<ProcessorInfo>, n: int, name: Seq<char>)
    requires
        0 <= n <= s.len(),
        registered_index(s.subrange(0, n), name) is Some,
    ensures
        registered_index(s, name) == registered_index(s.subrange(0, n), name),
    decreases s.len(),
{
    if n == s.len() {
        assert(s.subrange(0, n) =~= s);
    } else {
        assert(s.drop_last().subrange(0, n) =~= s.subrange(0, n));
        lemma_registered_prefix(s.drop_last(), n, name);
    }
}

proof fn lemma_registered_bound(s: Seq<ProcessorInfo>, name: Seq<char>)
    ensures
        registered_index(s, name) matches Some(i) ==> 0 <= i < s.len() && s[i].name@ == name,
    decreases s.len(),
{
    if s.len() > 0 {
        lemma_registered_bound(s.drop_last(), name);
    }
}

/// The index of the first registered processor named `name`.
pub fn find_registered(registry: &Vec<ProcessorInfo>, name: &str) -> (r: Option<usize>)
    ensures
        r matches Some(i) ==> registered_index(registry@, name@) == Some(i as int) && i
            < registry@.len(),
        r is None ==> registered_index(registry@, name@) is None,
{
    let mut i: usize = 0;
    while i < registry.len()
        invariant
            i <= registry@.len(),
            registered_index(registry@.subrange(0, i as int), name@) is None,
        decreases registry@.len() - i,
    {
        assert(registry@.subrange(0, i + 1).drop_last() =~= registry@.subrange(0, i as int));
        if text_eq(registry[i].name.as_str(), name) {
            proof {
                lemma_registered_prefix(registry@, i + 1, name@);
            }
            return Some(i);
        }
        i = i + 1;
    }
    assert(registry@.subrange(0, registry@.len() as int) =~= registry@);
    None
}

/// The dispatcher's decision for every entry of a phase, in order: an
/// unknown name is skipped, a processor that needs memory is skipped on a
/// topic without it, every other entry runs. No entry's decision depends on
/// how an earlier one fared.
pub fn plan_dispatch(
    config: &PipelineConfig,
    timing: PipelineTiming,
    registry: &Vec<ProcessorInfo>,
    memory_enabled: bool,
) -> (r: Vec<DispatchStep>)
    ensures
        r@.len() == config.phase(timing).len(),
        forall|i: int|
            0 <= i < r@.len() ==> #[trigger] r@[i] == step_for(
                registry@,
                config.phase(timing)[i].name@,
                memory_enabled,
            ),
{
    let entries = config.entries(timing);
    let mut steps: Vec<DispatchStep> = Vec::new();
    let mut i: usize = 0;
    while i < entries.len()
        invariant
            i <= entries@.len(),
            entries@ == config.phase(timing),
            steps@.len() == i,
            forall|k: int|
                0 <= k < i ==> #[trigger] steps@[k] == step_for(
                    registry@,
                    entries@[k].name@,
                    memory_enabled,
                ),
        decreases entries@.len() - i,
    {
        let step = match find_registered(registry, entries[i].name.as_str()) {
            Some(j) => {
                proof {
                    lemma_registered_bound(registry@, entries@[i as int].name@);
                }
                if registry[j].requires_memory && !memory_enabled {
                    DispatchStep::SkipNoMemory
                } else {
                    DispatchStep::Run(j)
                }
            },
            None => DispatchStep::SkipUnknown,
        };
        steps.push(step);
        i = i + 1;
    }
    steps
}

/// Stamp a processor's success on the packet.
pub fn record_success(packet: &mut ConversationPacket, name: &str)
    ensures
        (final(packet).last_processor matches Some(n) && n@ == name@),
        final(packet).user_input == old(packet).user_input,
        final(packet).messages == old(packet).messages,
        final(packet).wf() == old(packet).wf(),
        final(packet).ai_response == old(packet).ai_response,
        final(packet).conversation_turns == old(packet).conversation_turns,
        final(packet).history_states == old(packet).history_states,
        final(packet).current_states == old(packet).current_states,
        final(packet).short_term_memory == old(packet).short_term_memory,
{
    packet.last_processor = Some(String::from_str(name));
}

/// The processors that run on the packet alone.
#[derive(Debug, Clone, Copy, PartialEq, Eq, Structural)]
pub enum LocalProcessor {
    ContextCleaner,
    ShortTermAssembler,
    ShortTermExpander,
    HistorySimplifier,
}

pub open spec fn local_name(p: LocalProcessor) -> Seq<char> {
    match p {
        LocalProcessor::ContextCleaner => "ContextCleaner"@,
        LocalProcessor::ShortTermAssembler => "ShortTermAssembler"@,
        LocalProcessor::ShortTermExpander => "ShortTermExpander"@,
        LocalProcessor::HistorySimplifier => "HistorySimplifier"@,
    }
}

/// What running `p` does to a packet.
pub open spec fn local_effect(p: LocalProcessor, before: ConversationPacket, after: ConversationPacket) -> bool {
    match p {
        LocalProcessor::ContextCleaner => cleaned(before, after),
        LocalProcessor::ShortTermAssembler => assembled(before, after),
        LocalProcessor::ShortTermExpander => expanded(before, after),
        LocalProcessor::HistorySimplifier => simplified(before, after),
    }
}

impl LocalProcessor {
    pub fn name(&self) -> (r: &'static str)
        ensures
            r@ == local_name(*self),
    {
        proof {
            reveal_strlit("ContextCleaner");
            reveal_strlit("ShortTermAssembler");
            reveal_strlit("ShortTermExpander");
            reveal_strlit("HistorySimplifier");
        }
        match self {
            LocalProcessor::ContextCleaner => "ContextCleaner",
            LocalProcessor::ShortTermAssembler => "ShortTermAssembler",
            LocalProcessor::ShortTermExpander => "ShortTermExpander",
            LocalProcessor::HistorySimplifier => "HistorySimplifier",
        }
    }

    pub fn run(&self, packet: &mut ConversationPacket) -> (r: Result<(), ProcessorError>)
        requires
            old(packet).wf(),
        ensures
            r is Ok,
            keeps_turn(*old(packet), *final(packet)),
            local_effect(*self, *old(packet), *final(packet)),
            has_state(final(packet).current_states@, local_name(*self)),
    {
        proof {
            reveal_strlit("ContextCleaner");
            reveal_strlit("ShortTermAssembler");
            reveal_strlit("ShortTermExpander");
            reveal_strlit("HistorySimplifier");
        }
        match self {
            LocalProcessor::ContextCleaner => ContextCleaner::new().process(packet),
            LocalProcessor::ShortTermAssembler => ShortTermAssembler::new().process(packet),
            LocalProcessor::ShortTermExpander => ShortTermExpander::new().process(packet),
            LocalProcessor::HistorySimplifier => HistorySimplifier::new().process(packet),
        }
    }
}

/// Run `steps` in order on the packet; a failing step is passed over and
/// the rest still run, and each success is stamped as the last processor.
/// Returns how many steps succeeded. The turn's user input, response, turns
/// and history come out as they went in, whatever the steps did to the
/// context, and every step leaves its state.
pub fn run_local_sequence(packet: &mut ConversationPacket, steps: &Vec<LocalProcessor>) -> (r: usize)
    requires
        old(packet).wf(),
    ensures
        final(packet).wf(),
        final(packet).user_input == old(packet).user_input,
        final(packet).ai_response == old(packet).ai_response,
        final(packet).conversation_turns == old(packet).conversation_turns,
        final(packet).history_states == old(packet).history_states,
        r == steps@.len(),
        steps@.len() > 0 ==> (final(packet).last_processor matches Some(n) && n@ == local_name(
            steps@.last(),
        )),
        steps@.len() == 0 ==> final(packet).last_processor == old(packet).last_processor,
        forall|i: int|
            0 <= i < steps@.len() ==> has_state(
                final(packet).current_states@,
                #[trigger] local_name(steps@[i]),
            ),
        forall|n: Seq<char>|
            has_state(old(packet).current_states@, n) ==> #[trigger] has_state(
                final(packet).current_states@,
                n,
            ),
{
    let mut ok: usize = 0;
    let mut i: usize = 0;
    while i < steps.len()
        invariant
            i <= steps@.len(),
            ok == i,
            packet.wf(),
            packet.user_input == old(packet).user_input,
            packet.ai_response == old(packet).ai_response,
            packet.conversation_turns == old(packet).conversation_turns,
            packet.history_states == old(packet).history_states,
            i > 0 ==> (packet.last_processor matches Some(n) && n@ == local_name(steps@[i - 1])),
            i == 0 ==> packet.last_processor == old(packet).last_processor,
            forall|k: int|
                0 <= k < i ==> has_state(packet.current_states@, #[trigger] local_name(steps@[k])),
            forall|n: Seq<char>|
                has_state(old(packet).current_states@, n) ==> #[trigger] has_state(
                    packet.current_states@,
                    n,
                ),
        decreases steps@.len() - i,
    {
        let step = steps[i];
        let ghost before = packet.current_states@;
        match step.run(packet) {
            Ok(()) => {
                record_success(packet, step.name());
                ok = ok + 1;
            },
            Err(_) => {},
        }
        proof {
            assert forall|k: int| 0 <= k < i + 1 implies has_state(
                packet.current_states@,
                #[trigger] local_name(steps@[k]),
            ) by {
                if k < i {
                    assert(has_state(before, local_name(steps@[k])));
                }
            }
        }
        i = i + 1;
    }
    ok
}

} // verus!
