//! The built-in processors that rewrite the outgoing context: the cleaner,
//! the short-term assembler and expander, and the placeholders that only
//! mark their turn.

use vstd::prelude::*;
use crate::message::{ChatMessage, user_role};
use crate::outside::{format_timestamp, json_bool, json_count, json_list, json_object, json_text, time_text};
use crate::packet::{ConversationPacket, has_state, sorted_by_relevance};
use crate::text::{has_prefix, join, join_texts, starts_with};
use crate::types::ShortTermMemory;

verus! {

/// What a processor can fail with.
#[derive(Debug, Clone)]
pub enum ProcessorError {
    Internal(String),
    Config(String),
    Service(String),
    Ai(String),
    Memory(String),
}

/// The marker that opens an injected short-term memory message.
pub open spec fn inject_prefix() -> Seq<char> {
    "【系统消息-短期记忆】现在为你注入"@
}

/// The marker that opens an injected expansion message.
pub open spec fn expand_prefix() -> Seq<char> {
    "【系统消息-短期记忆】根据"@
}

/// A user message injected for the model only, which the cleaner removes.
pub open spec fn is_injected(m: ChatMessage) -> bool {
    m.role@ == user_role() && (has_prefix(m.content@, inject_prefix()) || has_prefix(
        m.content@,
        expand_prefix(),
    ))
}

pub open spec fn kept_message() -> spec_fn(ChatMessage) -> bool {
    |m: ChatMessage| !is_injected(m)
}

/// What every processor leaves alone.
pub open spec fn keeps_turn(before: ConversationPacket, after: ConversationPacket) -> bool {
    &&& after.wf()
    &&& after.user_input == before.user_input
    &&& after.ai_response == before.ai_response
    &&& after.conversation_turns == before.conversation_turns
    &&& after.history_states == before.history_states
    &&& after.last_processor == before.last_processor
    &&& forall|n: Seq<char>|
        has_state(before.current_states@, n) ==> #[trigger] has_state(after.current_states@, n)
}

/// What the cleaner does to a packet: the injected messages go, the rest stay in order.
pub open spec fn cleaned(before: ConversationPacket, after: ConversationPacket) -> bool {
    &&& (after.short_term_memory == before.short_term_memory)
    &&& (after.messages@ == before.messages@.filter(kept_message()))
    &&& (forall|i: int|
                0 <= i < after.messages@.len() ==> !is_injected(
                    #[trigger] after.messages@[i],
                ))
    &&& (has_state(after.current_states@, "ContextCleaner"@))
}

/// What the assembler does to a packet.
pub open spec fn assembled(before: ConversationPacket, after: ConversationPacket) -> bool {
    &&& (after.short_term_memory == before.short_term_memory)
    &&& (has_state(after.current_states@, "ShortTermAssembler"@))
    &&& (before.short_term_memory@.len() == 0 ==> after.messages == before.messages)
    &&& (before.short_term_memory@.len() > 0 ==> ({
                let sys = system_only(before.messages@);
                let ms = after.messages@;
                let extra = if before.user_input@.len() > 0 { 1int } else { 0 };
                &&& ms.len() == sys.len() + 1 + extra
                &&& ms.subrange(0, sys.len() as int) == sys
                &&& ms[sys.len() as int].role@ == user_role()
                &&& exists|s: Seq<ShortTermMemory>|
                    s.to_multiset() == before.short_term_memory@.to_multiset()
                        && sorted_by_relevance(s) && ms[sys.len() as int].content@ == injection_text(
                        before.user_name@,
                        memory_lines(s),
                    )
                &&& extra == 1 ==> ms.last().role@ == user_role() && ms.last().content@ == before.user_input@
            }))
}

/// What the expander does to a packet.
pub open spec fn expanded(before: ConversationPacket, after: ConversationPacket) -> bool {
    &&& (after.short_term_memory == before.short_term_memory)
    &&& (has_state(after.current_states@, "ShortTermExpander"@))
    &&& (marked(before.short_term_memory@).len() == 0 ==> after.messages == before.messages)
    &&& (marked(before.short_term_memory@).len() > 0 ==> ({
                let pos = expansion_position(before.messages@.len());
                &&& after.messages@.len() == before.messages@.len() + 1
                &&& after.messages@.remove(pos) == before.messages@
                &&& after.messages@[pos].role@ == user_role()
                &&& after.messages@[pos].content@ == expansion_text(
                    before.user_name@,
                    before.short_term_memory@,
                )
            }))
}

/// What the simplifier does to a packet: it only records its step.
pub open spec fn simplified(before: ConversationPacket, after: ConversationPacket) -> bool {
    &&& (after.messages == before.messages)
    &&& (after.short_term_memory == before.short_term_memory)
    &&& (has_state(after.current_states@, "HistorySimplifier"@))
}

fn key(k: &str) -> (r: String)
    ensures
        r@ == k@,
{
    String::from_str(k)
}

/// Removes the injected memory messages from the context.
pub struct ContextCleaner;

impl ContextCleaner {
    pub fn new() -> (r: ContextCleaner) {
        ContextCleaner
    }

    pub fn name(&self) -> (r: &'static str) {
        "ContextCleaner"
    }

    pub fn requires_memory(&self) -> (r: bool)
        ensures
            r,
    {
        true
    }

    pub fn should_remove_short_term_memory_injection(msg: &ChatMessage) -> (r: bool)
        ensures
            r == (msg.role@ == user_role() && has_prefix(msg.content@, inject_prefix())),
    {
        msg.is_user_message() && starts_with(msg.content.as_str(), "【系统消息-短期记忆】现在为你注入")
    }

    pub fn should_remove_short_term_memory_expansion(msg: &ChatMessage) -> (r: bool)
        ensures
            r == (msg.role@ == user_role() && has_prefix(msg.content@, expand_prefix())),
    {
        msg.is_user_message() && starts_with(msg.content.as_str(), "【系统消息-短期记忆】根据")
    }

    pub fn should_remove(msg: &ChatMessage) -> (r: bool)
        ensures
            r == is_injected(*msg),
    {
        Self::should_remove_short_term_memory_injection(msg)
            || Self::should_remove_short_term_memory_expansion(msg)
    }

    /// Drop every injected user message, keeping the others in order, and
    /// record the counts.
    pub fn process(&self, packet: &mut ConversationPacket) -> (r: Result<(), ProcessorError>)
        requires
            old(packet).wf(),
        ensures
            r is Ok,
            keeps_turn(*old(packet), *final(packet)),
            cleaned(*old(packet), *final(packet)),
            forall|i: int|
                0 <= i < final(packet).messages@.len() ==> !is_injected(
                    #[trigger] final(packet).messages@[i],
                ),
    {
        let mut all: Vec<ChatMessage> = Vec::new();
        std::mem::swap(&mut all, &mut packet.messages);
        let ghost start = all@;
        let mut kept: Vec<ChatMessage> = Vec::new();
        let mut i: usize = 0;
        while i < all.len()
            invariant
                start == all@,
                i <= all@.len(),
                kept@ == all@.subrange(0, i as int).filter(kept_message()),
                forall|k: int| 0 <= k < kept@.len() ==> !is_injected(#[trigger] kept@[k]),
            decreases all@.len() - i,
        {
            proof {
                assert(all@.subrange(0, i + 1) =~= all@.subrange(0, i as int).push(all@[i as int]));
                all@.subrange(0, i as int).lemma_filter_push(all@[i as int], kept_message());
            }
            if !Self::should_remove(&all[i]) {
                kept.push(all[i].duplicate());
            }
            i = i + 1;
        }
        assert(all@.subrange(0, all@.len() as int) =~= all@);
        let before = all.len();
        let after = kept.len();
        packet.messages = kept;
        let mut entries: Vec<(String, serde_json::Value)> = Vec::new();
        entries.push((key("cleaned"), json_bool(true)));
        entries.push((key("removed_count"), json_count((before - after) as u64)));
        entries.push((key("before_count"), json_count(before as u64)));
        entries.push((key("after_count"), json_count(after as u64)));
        packet.set_processor_state("ContextCleaner", json_object(entries));
        proof {
            reveal_strlit("ContextCleaner");
        }
        Ok(())
    }
}

/// The line that stands for one memory in the injected message.
pub open spec fn memory_line(m: ShortTermMemory) -> Seq<char> {
    "["@ + m.memory_type@ + "]"@ + m.summary@
}

pub open spec fn memory_lines(s: Seq<ShortTermMemory>) -> Seq<char> {
    join(s.map_values(|m: ShortTermMemory| memory_line(m)), "\n"@)
}

/// The injected message that carries the short-term memories.
pub open spec fn injection_text(user_name: Seq<char>, lines: Seq<char>) -> Seq<char> {
    inject_prefix() + "短期记忆，你现在正在与"@ + user_name + "进行交谈\n---短期记忆---\n"@ + lines
        + "\n---短期记忆结束---\n"@
}

/// The first system message of `ms`, if any.
pub open spec fn first_system(ms: Seq<ChatMessage>) -> Option<ChatMessage>
    decreases ms.len(),
{
    if ms.len() == 0 {
        None
    } else {
        match first_system(ms.drop_last()) {
            Some(m) => Some(m),
            None => if ms.last().is_system() {
                Some(ms.last())
            } else {
                None
            },
        }
    }
}

/// The first system message of `ms`, copied.
pub fn find_system_message(ms: &Vec<ChatMessage>) -> (r: Option<ChatMessage>)
    ensures
        r == first_system(ms@),
{
    let mut i: usize = 0;
    while i < ms.len()
        invariant
            i <= ms@.len(),
            first_system(ms@.subrange(0, i as int)) is None,
        decreases ms@.len() - i,
    {
        assert(ms@.subrange(0, i + 1).drop_last() =~= ms@.subrange(0, i as int));
        if ms[i].is_system_message() {
            proof {
                lemma_first_system_prefix(ms@, i + 1);
            }
            return Some(ms[i].duplicate());
        }
        i = i + 1;
    }
    assert(ms@.subrange(0, ms@.len() as int) =~= ms@);
    None
}

proof fn lemma_first_system_prefix(s: Seq<ChatMessage>, n: int)
    requires
        0 <= n <= s.len(),
        first_system(s.subrange(0, n)) is Some,
    ensures
        first_system(s) == first_system(s.subrange(0, n)),
    decreases s.len(),
{
    if n == s.len() {
        assert(s.subrange(0, n) =~= s);
    } else {
        assert(s.drop_last().subrange(0, n) =~= s.subrange(0, n));
        lemma_first_system_prefix(s.drop_last(), n);
    }
}

/// Only the first system message of `ms` (or nothing).
pub open spec fn system_only(ms: Seq<ChatMessage>) -> Seq<ChatMessage> {
    match first_system(ms) {
        Some(m) => seq![m],
        None => Seq::empty(),
    }
}

/// Keep only the first system message of the packet's context.
pub fn keep_system_only(packet: &mut ConversationPacket)
    ensures
        final(packet).messages@ == system_only(old(packet).messages@),
        final(packet).wf() == old(packet).wf(),
        final(packet).user_input == old(packet).user_input,
        final(packet).ai_response == old(packet).ai_response,
        final(packet).conversation_turns == old(packet).conversation_turns,
        final(packet).history_states == old(packet).history_states,
        final(packet).current_states == old(packet).current_states,
        final(packet).short_term_memory == old(packet).short_term_memory,
        final(packet).user_name == old(packet).user_name,
        final(packet).last_processor == old(packet).last_processor,
{
    let system = find_system_message(&packet.messages);
    packet.messages.clear();
    match system {
        Some(m) => {
            packet.messages.push(m);
            assert(packet.messages@ =~= system_only(old(packet).messages@));
        },
        None => {
            assert(packet.messages@ =~= system_only(old(packet).messages@));
        },
    }
}

/// Rebuilds the context as the system message, one injected message with the
/// short-term memories, and the user's input.
pub struct ShortTermAssembler;

impl ShortTermAssembler {
    pub fn new() -> (r: ShortTermAssembler) {
        ShortTermAssembler
    }

    pub fn name(&self) -> (r: &'static str) {
        "ShortTermAssembler"
    }

    pub fn requires_memory(&self) -> (r: bool)
        ensures
            r,
    {
        true
    }

    /// The memories' lines, highest relevance first.
    pub fn format_memories(packet: &ConversationPacket) -> (r: String)
        ensures
            exists|s: Seq<ShortTermMemory>|
                s.to_multiset() == packet.short_term_memory@.to_multiset() && sorted_by_relevance(s)
                    && r@ == memory_lines(s),
    {
        let sorted = packet.get_short_term_memory_sorted();
        let ghost s = sorted@.map_values(|m: &ShortTermMemory| *m);
        let mut lines: Vec<String> = Vec::new();
        let mut i: usize = 0;
        while i < sorted.len()
            invariant
                i <= sorted@.len(),
                s == sorted@.map_values(|m: &ShortTermMemory| *m),
                lines@.len() == i,
                forall|k: int| 0 <= k < i ==> #[trigger] lines@[k]@ == memory_line(s[k]),
            decreases sorted@.len() - i,
        {
            let m = sorted[i];
            let mut line = String::from_str("[");
            line.append(m.memory_type.as_str());
            line.append("]");
            line.append(m.summary.as_str());
            lines.push(line);
            i = i + 1;
        }
        let r = join_texts(&lines, "\n");
        assert(lines@.map_values(|p: String| p@) =~= s.map_values(
            |m: ShortTermMemory| memory_line(m),
        ));
        r
    }

    /// With no short-term memories, only record that the step was skipped.
    /// Otherwise keep the system message, inject the memories as one user
    /// message, and put the user's input back last (when there is one).
    pub fn process(&self, packet: &mut ConversationPacket) -> (r: Result<(), ProcessorError>)
        requires
            old(packet).wf(),
        ensures
            r is Ok,
            keeps_turn(*old(packet), *final(packet)),
            assembled(*old(packet), *final(packet)),
    {
        if packet.short_term_memory.len() == 0 {
            let mut entries: Vec<(String, serde_json::Value)> = Vec::new();
            entries.push((key("skipped"), json_bool(true)));
            entries.push((key("reason"), json_text(key("no_short_term_memory"))));
            packet.set_processor_state("ShortTermAssembler", json_object(entries));
            proof {
                reveal_strlit("ShortTermAssembler");
            }
            return Ok(());
        }
        let count = packet.short_term_memory.len();
        keep_system_only(packet);
        let ghost sys = packet.messages@;
        let lines = Self::format_memories(packet);
        let mut text = String::from_str("【系统消息-短期记忆】现在为你注入");
        text.append("短期记忆，你现在正在与");
        text.append(packet.user_name.as_str());
        text.append("进行交谈\n---短期记忆---\n");
        text.append(lines.as_str());
        text.append("\n---短期记忆结束---\n");
        packet.messages.push(ChatMessage::user(text.as_str()));
        if packet.user_input.unicode_len() > 0 {
            let input = ChatMessage::user(packet.user_input.as_str());
            packet.messages.push(input);
        }
        assert(packet.messages@.subrange(0, sys.len() as int) =~= sys);
        let mut entries: Vec<(String, serde_json::Value)> = Vec::new();
        entries.push((key("assembled"), json_bool(true)));
        entries.push((key("memory_count"), json_count(count as u64)));
        entries.push((key("context_cleared"), json_bool(true)));
        packet.set_processor_state("ShortTermAssembler", json_object(entries));
        proof {
            reveal_strlit("ShortTermAssembler");
        }
        Ok(())
    }
}

pub open spec fn expanded_entry(m: ShortTermMemory) -> Seq<char> {
    "["@ + time_text(m.timestamp) + "]["@ + m.memory_type@ + "]"@ + m.summary@ + "\n"@ + m.content@
}

pub open spec fn marked(s: Seq<ShortTermMemory>) -> Seq<ShortTermMemory> {
    s.filter(|m: ShortTermMemory| m.should_expand)
}

/// The injected message that carries the expanded memories.
pub open spec fn expansion_text(user_name: Seq<char>, pool: Seq<ShortTermMemory>) -> Seq<char> {
    expand_prefix() + user_name + "的标记，以下记忆需要展开\n---展开的短期记忆---\n"@ + join(
        marked(pool).map_values(|m: ShortTermMemory| expanded_entry(m)),
        "\n\n"@,
    ) + "\n---短期记忆结束---"@
}

/// Where the expansion goes: before the last message.
pub open spec fn expansion_position(len: nat) -> int {
    if len >= 1 {
        len - 1
    } else {
        0
    }
}

/// Injects the full content of the memories marked for expansion, just
/// before the user's latest message.
pub struct ShortTermExpander;

impl ShortTermExpander {
    pub fn new() -> (r: ShortTermExpander) {
        ShortTermExpander
    }

    pub fn name(&self) -> (r: &'static str) {
        "ShortTermExpander"
    }

    pub fn requires_memory(&self) -> (r: bool)
        ensures
            r,
    {
        true
    }

    /// The marked memories, each as its time, type, summary and content.
    pub fn build_expanded_text(packet: &ConversationPacket) -> (r: String)
        ensures
            r@ == join(
                marked(packet.short_term_memory@).map_values(
                    |m: ShortTermMemory| expanded_entry(m),
                ),
                "\n\n"@,
            ),
    {
        let pool = &packet.short_term_memory;
        let mut parts: Vec<String> = Vec::new();
        let mut i: usize = 0;
        while i < pool.len()
            invariant
                i <= pool@.len(),
                parts@.map_values(|p: String| p@) == marked(pool@.subrange(0, i as int)).map_values(
                    |m: ShortTermMemory| expanded_entry(m),
                ),
            decreases pool@.len() - i,
        {
            proof {
                assert(pool@.subrange(0, i + 1) =~= pool@.subrange(0, i as int).push(pool@[i as int]));
                pool@.subrange(0, i as int).lemma_filter_push(
                    pool@[i as int],
                    |m: ShortTermMemory| m.should_expand,
                );
            }
            let m = &pool[i];
            if m.should_expand {
                let mut part = String::from_str("[");
                let when = format_timestamp(m.timestamp);
                part.append(when.as_str());
                part.append("][");
                part.append(m.memory_type.as_str());
                part.append("]");
                part.append(m.summary.as_str());
                part.append("\n");
                part.append(m.content.as_str());
                let ghost before = parts@;
                parts.push(part);
                proof {
                    assert(parts@.map_values(|p: String| p@) =~= before.map_values(|p: String| p@).push(
                        expanded_entry(pool@[i as int]),
                    ));
                }
            }
            i = i + 1;
        }
        assert(pool@.subrange(0, pool@.len() as int) =~= pool@);
        join_texts(&parts, "\n\n")
    }

    /// With no memory marked for expansion, only record that. Otherwise
    /// insert one user message with the expansion before the last message.
    pub fn process(&self, packet: &mut ConversationPacket) -> (r: Result<(), ProcessorError>)
        requires
            old(packet).wf(),
        ensures
            r is Ok,
            keeps_turn(*old(packet), *final(packet)),
            expanded(*old(packet), *final(packet)),
    {
        let mut ids: Vec<serde_json::Value> = Vec::new();
        let mut count: usize = 0;
        let mut i: usize = 0;
        let pool = &packet.short_term_memory;
        while i < pool.len()
            invariant
                i <= pool@.len(),
                count == marked(pool@.subrange(0, i as int)).len(),
            decreases pool@.len() - i,
        {
            proof {
                assert(pool@.subrange(0, i + 1) =~= pool@.subrange(0, i as int).push(pool@[i as int]));
                pool@.subrange(0, i as int).lemma_filter_push(
                    pool@[i as int],
                    |m: ShortTermMemory| m.should_expand,
                );
            }
            if pool[i].should_expand {
                ids.push(json_text(pool[i].id.clone()));
                count = count + 1;
            }
            i = i + 1;
        }
        assert(pool@.subrange(0, pool@.len() as int) =~= pool@);
        if count == 0 {
            let mut entries: Vec<(String, serde_json::Value)> = Vec::new();
            entries.push((key("expanded"), json_bool(false)));
            entries.push((key("reason"), json_text(key("no_memories_marked_for_expansion"))));
            packet.set_processor_state("ShortTermExpander", json_object(entries));
            proof {
                reveal_strlit("ShortTermExpander");
            }
            return Ok(());
        }
        let body = Self::build_expanded_text(packet);
        let mut text = String::from_str("【系统消息-短期记忆】根据");
        text.append(packet.user_name.as_str());
        text.append("的标记，以下记忆需要展开\n---展开的短期记忆---\n");
        text.append(body.as_str());
        text.append("\n---短期记忆结束---");
        let pos = if packet.messages.len() >= 1 {
            packet.messages.len() - 1
        } else {
            0
        };
        packet.messages.insert(pos, ChatMessage::user(text.as_str()));
        assert(packet.messages@.remove(pos as int) =~= old(packet).messages@);
        let mut entries: Vec<(String, serde_json::Value)> = Vec::new();
        entries.push((key("expanded"), json_bool(true)));
        entries.push((key("expanded_ids"), json_list(ids)));
        entries.push((key("expanded_count"), json_count(count as u64)));
        entries.push((key("insert_position"), json_count(pos as u64)));
        packet.set_processor_state("ShortTermExpander", json_object(entries));
        proof {
            reveal_strlit("ShortTermExpander");
        }
        Ok(())
    }
}

/// Compresses long histories; for now it only marks its turn.
pub struct HistorySimplifier;

impl HistorySimplifier {
    pub fn new() -> (r: HistorySimplifier) {
        HistorySimplifier
    }

    pub fn name(&self) -> (r: &'static str) {
        "HistorySimplifier"
    }

    pub fn requires_memory(&self) -> (r: bool)
        ensures
            r,
    {
        true
    }

    /// Record the step and leave the context as it is.
    pub fn process(&self, packet: &mut ConversationPacket) -> (r: Result<(), ProcessorError>)
        requires
            old(packet).wf(),
        ensures
            r is Ok,
            keeps_turn(*old(packet), *final(packet)),
            simplified(*old(packet), *final(packet)),
    {
        let mut entries: Vec<(String, serde_json::Value)> = Vec::new();
        entries.push((key("simplified"), json_bool(true)));
        packet.set_processor_state("HistorySimplifier", json_object(entries));
        proof {
            reveal_strlit("HistorySimplifier");
        }
        Ok(())
    }
}

/// Extracts latent affect and intent cues into the thinking pool.
pub struct SubconsciousProcessor;

impl SubconsciousProcessor {
    pub fn new() -> (r: SubconsciousProcessor) {
        SubconsciousProcessor
    }

    pub fn name(&self) -> (r: &'static str) {
        "SubconsciousProcessor"
    }

    pub fn requires_memory(&self) -> (r: bool)
        ensures
            r,
    {
        true
    }
}

} // verus!
