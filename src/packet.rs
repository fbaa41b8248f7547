//! The conversation packet: the persistent state of one assistant/topic
//! conversation, and the operations that processors perform on it.

use vstd::prelude::*;
use std::collections::VecDeque;
use crate::message::{ChatMessage, system_role, user_role, assistant_role};
use crate::outside::now_millis;
use crate::text::text_eq;
use crate::types::{ShortTermMemory, ThinkingSource, SCORE_ONE};

verus! {

broadcast use vstd::std_specs::vecdeque::group_vec_dequeue_axioms;

/// How many past turns of processor state a packet keeps.
pub const HISTORY_DEPTH: usize = 2;

/// Relevance at or below which a decayed short-term memory is dropped.
pub const RELEVANCE_FLOOR: u32 = 100_000;

/// One entry of the thinking pool.
#[derive(Debug, Clone)]
pub struct ThinkingEntry {
    pub content: String,
    pub source: ThinkingSource,
    /// Milliseconds since the Unix epoch.
    pub timestamp: i64,
}

/// One completed exchange: what the user said and what the assistant answered.
#[derive(Debug, Clone)]
pub struct ConversationTurn {
    pub user_message: String,
    pub assistant_message: String,
    /// Milliseconds since the Unix epoch.
    pub timestamp: i64,
}

/// The state that one processor recorded for a turn.
#[derive(Debug)]
pub struct StateEntry {
    pub name: String,
    pub value: serde_json::Value,
}

pub open spec fn state_names(states: Seq<StateEntry>) -> Seq<Seq<char>> {
    states.map_values(|e: StateEntry| e.name@)
}

/// No processor name occurs twice.
pub open spec fn names_unique(states: Seq<StateEntry>) -> bool {
    forall|i: int, j: int|
        0 <= i < j < states.len() ==> states[i].name@ != states[j].name@
}

/// Does `states` hold an entry for `name`?
pub open spec fn has_state(states: Seq<StateEntry>, name: Seq<char>) -> bool {
    exists|i: int| 0 <= i < states.len() && states[i].name@ == name
}

#[derive(Debug)]
pub struct ConversationPacket {
    pub assistant_id: String,
    pub topic_id: String,
    pub user_id: Option<String>,
    pub user_name: String,
    pub assistant_name: String,
    pub messages: Vec<ChatMessage>,
    pub thinking_pool: Vec<ThinkingEntry>,
    pub short_term_memory: Vec<ShortTermMemory>,
    /// Processor states of the current turn, one entry per processor name.
    pub current_states: Vec<StateEntry>,
    /// Processor states of the most recent past turns, newest first.
    pub history_states: VecDeque<Vec<StateEntry>>,
    pub conversation_turns: Vec<ConversationTurn>,
    pub last_processor: Option<String>,
    /// The user's text of this turn, kept apart from `messages`.
    pub user_input: String,
    pub ai_response: Option<String>,
    pub last_request_messages: Vec<ChatMessage>,
    pub main_model: Option<String>,
    pub processor_model: Option<String>,
    pub embedding_model: Option<String>,
}

/// The memories of `pool` ordered by relevance, highest first.
pub open spec fn sorted_by_relevance(s: Seq<ShortTermMemory>) -> bool {
    forall|i: int, j: int| 0 <= i < j < s.len() ==> s[i].relevance >= s[j].relevance
}

/// Where a memory of relevance `w` goes in `s` from index `k` on: before the
/// first memory of lower relevance.
pub open spec fn relevance_slot(s: Seq<ShortTermMemory>, w: u32, k: int) -> int
    decreases s.len() - k,
{
    if k < 0 || k >= s.len() {
        s.len() as int
    } else if s[k].relevance < w {
        k
    } else {
        relevance_slot(s, w, k + 1)
    }
}

/// `s` ranked by relevance, highest first, equal relevances in their order.
pub open spec fn ranked_by_relevance(s: Seq<ShortTermMemory>) -> Seq<ShortTermMemory>
    decreases s.len(),
{
    if s.len() == 0 {
        s
    } else {
        let r = ranked_by_relevance(s.drop_last());
        r.insert(relevance_slot(r, s.last().relevance, 0), s.last())
    }
}

pub open spec fn decayed(m: ShortTermMemory, factor: u32) -> ShortTermMemory {
    ShortTermMemory {
        relevance: (m.relevance as int * factor as int / SCORE_ONE as int) as u32,
        ..m
    }
}

/// The memories of `pool` after a decay by `factor`: each relevance scaled,
/// and those at or below the floor dropped, in their order.
pub open spec fn decay_pool(pool: Seq<ShortTermMemory>, factor: u32) -> Seq<ShortTermMemory>
    decreases pool.len(),
{
    if pool.len() == 0 {
        Seq::empty()
    } else {
        let rest = decay_pool(pool.drop_last(), factor);
        let m = decayed(pool.last(), factor);
        if m.relevance > RELEVANCE_FLOOR {
            rest.push(m)
        } else {
            rest
        }
    }
}

impl ConversationPacket {
    /// The packet's standing invariant.
    pub open spec fn wf(&self) -> bool {
        &&& self.history_states@.len() <= HISTORY_DEPTH
        &&& names_unique(self.current_states@)
    }

    pub fn new(assistant_id: String, topic_id: String, user_name: String, assistant_name: String) -> (r:
        ConversationPacket)
        ensures
            r.wf(),
            r.assistant_id == assistant_id,
            r.topic_id == topic_id,
            r.user_name == user_name,
            r.assistant_name == assistant_name,
            r.user_id is None,
            r.messages@.len() == 0,
            r.thinking_pool@.len() == 0,
            r.short_term_memory@.len() == 0,
            r.current_states@.len() == 0,
            r.history_states@.len() == 0,
            r.conversation_turns@.len() == 0,
            r.last_processor is None,
            r.user_input@.len() == 0,
            r.ai_response is None,
            r.last_request_messages@.len() == 0,
            r.main_model is None,
            r.processor_model is None,
            r.embedding_model is None,
    {
        ConversationPacket {
            assistant_id,
            topic_id,
            user_id: None,
            user_name,
            assistant_name,
            messages: Vec::new(),
            thinking_pool: Vec::new(),
            short_term_memory: Vec::new(),
            current_states: Vec::new(),
            history_states: VecDeque::new(),
            conversation_turns: Vec::new(),
            last_processor: None,
            user_input: String::new(),
            ai_response: None,
            last_request_messages: Vec::new(),
            main_model: None,
            processor_model: None,
            embedding_model: None,
        }
    }

    /// Append a user message and make its text this turn's user input.
    pub fn append_user_message(&mut self, content: &str)
        ensures
            final(self).messages@.len() == old(self).messages@.len() + 1,
            final(self).messages@.drop_last() == old(self).messages@,
            final(self).messages@.last().role@ == user_role(),
            final(self).messages@.last().content@ == content@,
            final(self).user_input@ == content@,
            final(self).ai_response == old(self).ai_response,
            final(self).current_states == old(self).current_states,
            final(self).history_states == old(self).history_states,
            final(self).conversation_turns == old(self).conversation_turns,
            final(self).short_term_memory == old(self).short_term_memory,
            final(self).thinking_pool == old(self).thinking_pool,
    {
        self.messages.push(ChatMessage::user(content));
        self.user_input = String::from_str(content);
        assert(self.messages@.drop_last() =~= old(self).messages@);
    }

    /// Append an assistant message and record its text as the response.
    pub fn append_assistant_message(&mut self, content: &str)
        ensures
            final(self).messages@.len() == old(self).messages@.len() + 1,
            final(self).messages@.drop_last() == old(self).messages@,
            final(self).messages@.last().role@ == assistant_role(),
            final(self).messages@.last().content@ == content@,
            (final(self).ai_response matches Some(a) && a@ == content@),
            final(self).user_input == old(self).user_input,
            final(self).current_states == old(self).current_states,
            final(self).history_states == old(self).history_states,
            final(self).conversation_turns == old(self).conversation_turns,
            final(self).short_term_memory == old(self).short_term_memory,
    {
        self.messages.push(ChatMessage::assistant(content));
        self.ai_response = Some(String::from_str(content));
        assert(self.messages@.drop_last() =~= old(self).messages@);
    }

    /// Record the turn when both the user input and the response are present.
    pub fn save_conversation_turn(&mut self)
        ensures
            if old(self).user_input@.len() > 0 && old(self).ai_response is Some {
                &&& final(self).conversation_turns@.len() == old(self).conversation_turns@.len() + 1
                &&& final(self).conversation_turns@.drop_last() == old(
                    self,
                ).conversation_turns@
                &&& final(self).conversation_turns@.last().user_message == old(self).user_input
                &&& final(self).conversation_turns@.last().assistant_message == old(
                    self,
                ).ai_response->0
            } else {
                final(self).conversation_turns == old(self).conversation_turns
            },
            final(self).user_input == old(self).user_input,
            final(self).ai_response == old(self).ai_response,
            final(self).messages == old(self).messages,
            final(self).current_states == old(self).current_states,
            final(self).history_states == old(self).history_states,
            final(self).short_term_memory == old(self).short_term_memory,
    {
        if self.user_input.unicode_len() > 0 {
            match &self.ai_response {
                Some(response) => {
                    let turn = ConversationTurn {
                        user_message: self.user_input.clone(),
                        assistant_message: response.clone(),
                        timestamp: now_millis(),
                    };
                    self.conversation_turns.push(turn);
                    assert(self.conversation_turns@.drop_last() =~= old(
                        self,
                    ).conversation_turns@);
                },
                None => {},
            }
        }
    }

    pub fn get_last_turn(&self) -> (r: Option<&ConversationTurn>)
        ensures
            self.conversation_turns@.len() == 0 ==> r is None,
            self.conversation_turns@.len() > 0 ==> (r matches Some(t) && *t
                == self.conversation_turns@.last()),
    {
        let n = self.conversation_turns.len();
        if n == 0 {
            None
        } else {
            Some(&self.conversation_turns[n - 1])
        }
    }

    pub fn get_all_turns(&self) -> (r: &Vec<ConversationTurn>)
        ensures
            r == &self.conversation_turns,
    {
        &self.conversation_turns
    }

    /// Put `content` in the system message at index 0, inserting one there
    /// when the first message is not a system message.
    pub fn set_system_message(&mut self, content: &str)
        ensures
            final(self).messages@[0].role@ == system_role(),
            final(self).messages@[0].content@ == content@,
            old(self).messages@.len() > 0 && old(self).messages@[0].is_system() ==> {
                &&& final(self).messages@.len() == old(self).messages@.len()
                &&& final(self).messages@.drop_first() == old(self).messages@.drop_first()
            },
            !(old(self).messages@.len() > 0 && old(self).messages@[0].is_system()) ==> {
                &&& final(self).messages@.len() == old(self).messages@.len() + 1
                &&& final(self).messages@.drop_first() == old(self).messages@
            },
            final(self).user_input == old(self).user_input,
            final(self).current_states == old(self).current_states,
            final(self).history_states == old(self).history_states,
            final(self).conversation_turns == old(self).conversation_turns,
            final(self).short_term_memory == old(self).short_term_memory,
    {
        if self.messages.len() > 0 && self.messages[0].is_system_message() {
            self.messages.set(0, ChatMessage::system(content));
            assert(self.messages@.drop_first() =~= old(self).messages@.drop_first());
        } else {
            self.messages.insert(0, ChatMessage::system(content));
            assert(self.messages@.drop_first() =~= old(self).messages@);
        }
    }

    /// Add an entry to the thinking pool, stamped with the current time.
    pub fn add_thinking(&mut self, content: String, source: ThinkingSource)
        ensures
            final(self).thinking_pool@.len() == old(self).thinking_pool@.len() + 1,
            final(self).thinking_pool@.drop_last() == old(self).thinking_pool@,
            final(self).thinking_pool@.last().content == content,
            final(self).thinking_pool@.last().source == source,
            final(self).user_input == old(self).user_input,
            final(self).messages == old(self).messages,
            final(self).short_term_memory == old(self).short_term_memory,
    {
        self.thinking_pool.push(ThinkingEntry { content, source, timestamp: now_millis() });
        assert(self.thinking_pool@.drop_last() =~= old(self).thinking_pool@);
    }

    pub fn clear_thinking(&mut self)
        ensures
            final(self).thinking_pool@.len() == 0,
            final(self).user_input == old(self).user_input,
            final(self).messages == old(self).messages,
            final(self).short_term_memory == old(self).short_term_memory,
    {
        self.thinking_pool.clear();
    }

    pub fn get_thinking(&self) -> (r: &Vec<ThinkingEntry>)
        ensures
            r == &self.thinking_pool,
    {
        &self.thinking_pool
    }

    pub fn add_short_term_memory(&mut self, memory: ShortTermMemory)
        ensures
            final(self).short_term_memory@ == old(self).short_term_memory@.push(memory),
            final(self).ai_response == old(self).ai_response,
            final(self).thinking_pool == old(self).thinking_pool,
            final(self).user_input == old(self).user_input,
            final(self).messages == old(self).messages,
            final(self).current_states == old(self).current_states,
            final(self).history_states == old(self).history_states,
            final(self).conversation_turns == old(self).conversation_turns,
    {
        self.short_term_memory.push(memory);
    }

    pub fn add_short_term_memories(&mut self, memories: Vec<ShortTermMemory>)
        ensures
            final(self).short_term_memory@ == old(self).short_term_memory@ + memories@,
            final(self).ai_response == old(self).ai_response,
            final(self).thinking_pool == old(self).thinking_pool,
            final(self).user_input == old(self).user_input,
            final(self).messages == old(self).messages,
            final(self).current_states == old(self).current_states,
            final(self).history_states == old(self).history_states,
            final(self).conversation_turns == old(self).conversation_turns,
    {
        let mut more = memories;
        self.short_term_memory.append(&mut more);
    }

    pub fn clear_short_term_memory(&mut self)
        ensures
            final(self).short_term_memory@.len() == 0,
            final(self).user_input == old(self).user_input,
            final(self).messages == old(self).messages,
    {
        self.short_term_memory.clear();
    }

    pub fn get_short_term_memory(&self) -> (r: &Vec<ShortTermMemory>)
        ensures
            r == &self.short_term_memory,
    {
        &self.short_term_memory
    }

    /// The short-term memories ordered by relevance, highest first; memories
    /// of equal relevance keep their order.
    pub fn get_short_term_memory_sorted(&self) -> (r: Vec<&ShortTermMemory>)
        ensures
            r@.map_values(|m: &ShortTermMemory| *m).to_multiset()
                == self.short_term_memory@.to_multiset(),
            r@.len() == self.short_term_memory@.len(),
            sorted_by_relevance(r@.map_values(|m: &ShortTermMemory| *m)),
            r@.map_values(|m: &ShortTermMemory| *m) == ranked_by_relevance(self.short_term_memory@),
    {
        let pool = &self.short_term_memory;
        let mut out: Vec<&ShortTermMemory> = Vec::new();
        let mut i: usize = 0;
        proof {
            let e = out@.map_values(|m: &ShortTermMemory| *m);
            assert(e =~= Seq::<ShortTermMemory>::empty());
            assert(pool@.subrange(0, 0) =~= Seq::<ShortTermMemory>::empty());
            vstd::seq_lib::to_multiset_len(e);
            vstd::seq_lib::to_multiset_len(pool@.subrange(0, 0));
        }
        while i < pool.len()
            invariant
                i <= pool@.len(),
                out@.len() == i,
                out@.map_values(|m: &ShortTermMemory| *m).to_multiset() == pool@.subrange(
                    0,
                    i as int,
                ).to_multiset(),
                sorted_by_relevance(out@.map_values(|m: &ShortTermMemory| *m)),
                out@.map_values(|m: &ShortTermMemory| *m) == ranked_by_relevance(
                    pool@.subrange(0, i as int),
                ),
            decreases pool@.len() - i,
        {
            let m = &pool[i];
            let mut pos: usize = 0;
            while pos < out.len() && out[pos].relevance >= m.relevance
                invariant
                    pos <= out@.len(),
                    forall|k: int| 0 <= k < pos ==> out@[k].relevance >= m.relevance,
                    relevance_slot(out@.map_values(|m: &ShortTermMemory| *m), m.relevance, 0)
                        == relevance_slot(
                        out@.map_values(|m: &ShortTermMemory| *m),
                        m.relevance,
                        pos as int,
                    ),
                decreases out@.len() - pos,
            {
                pos = pos + 1;
            }
            assert(relevance_slot(out@.map_values(|m: &ShortTermMemory| *m), m.relevance, pos as int)
                == pos);
            assert(pool@.subrange(0, i + 1).drop_last() =~= pool@.subrange(0, i as int));
            let ghost before = out@.map_values(|m: &ShortTermMemory| *m);
            out.insert(pos, m);
            proof {
                let after = out@.map_values(|m: &ShortTermMemory| *m);
                assert(after =~= before.insert(pos as int, *m));
                assert(pool@.subrange(0, i + 1) =~= pool@.subrange(0, i as int).push(pool@[i as int]));
                vstd::seq_lib::to_multiset_insert(before, pos as int, *m);
                vstd::seq_lib::to_multiset_build(pool@.subrange(0, i as int), pool@[i as int]);
                assert forall|a: int, b: int| 0 <= a < b < after.len() implies after[a].relevance
                    >= after[b].relevance by {
                    if b < pos {
                    } else if b == pos {
                        assert(a < pos);
                    } else if a < pos {
                        if pos < before.len() {
                            assert(before[pos as int].relevance < m.relevance);
                        }
                    } else if a == pos {
                        assert(before[pos as int].relevance < m.relevance);
                    } else {
                    }
                }
            }
            i = i + 1;
        }
        assert(pool@.subrange(0, pool@.len() as int) =~= pool@);
        out
    }

    /// Scale every relevance by `factor` (in millionths) and drop the memories
    /// whose relevance ends at or below the floor.
    pub fn decay_short_term_memory(&mut self, factor: u32)
        requires
            0 < factor <= SCORE_ONE,
        ensures
            final(self).short_term_memory@ == decay_pool(old(self).short_term_memory@, factor),
            final(self).user_input == old(self).user_input,
            final(self).messages == old(self).messages,
            final(self).current_states == old(self).current_states,
            final(self).history_states == old(self).history_states,
            final(self).conversation_turns == old(self).conversation_turns,
    {
        let mut kept: Vec<ShortTermMemory> = Vec::new();
        let mut pool: Vec<ShortTermMemory> = Vec::new();
        std::mem::swap(&mut pool, &mut self.short_term_memory);
        let ghost start = pool@;
        let mut i: usize = 0;
        while i < pool.len()
            invariant
                start == old(self).short_term_memory@,
                pool@ == start,
                i <= pool@.len(),
                kept@ == decay_pool(start.subrange(0, i as int), factor),
                0 < factor <= SCORE_ONE,
            decreases pool@.len() - i,
        {
            let m = pool[i].duplicate();
            proof {
                let r = m.relevance as int;
                let f = factor as int;
                assert(r * f <= r * SCORE_ONE) by (nonlinear_arith)
                    requires
                        0 <= r,
                        f <= SCORE_ONE,
                ;
                assert(r * f / SCORE_ONE as int <= r) by (nonlinear_arith)
                    requires
                        0 <= r,
                        0 <= r * f <= r * SCORE_ONE,
                ;
                assert(r * SCORE_ONE <= 0xffff_ffff * SCORE_ONE) by (nonlinear_arith)
                    requires
                        0 <= r <= 0xffff_ffff,
                ;
            }
            let scaled = (m.relevance as u64 * factor as u64 / SCORE_ONE as u64) as u32;
            proof {
                assert(start.subrange(0, i + 1).drop_last() =~= start.subrange(0, i as int));
            }
            if scaled > RELEVANCE_FLOOR {
                kept.push(ShortTermMemory { relevance: scaled, ..m });
            }
            i = i + 1;
        }
        assert(start.subrange(0, start.len() as int) =~= start);
        self.short_term_memory = kept;
    }

    /// End the turn: the current processor states become the newest history
    /// frame (when there are any), history keeps at most two frames, and the
    /// turn's input, response and states are cleared. Pools and turns stay.
    pub fn end_turn(&mut self)
        requires
            old(self).wf(),
        ensures
            final(self).wf(),
            final(self).current_states@.len() == 0,
            final(self).history_states@.len() <= HISTORY_DEPTH,
            old(self).current_states@.len() > 0 ==> final(self).history_states@[0]
                == old(self).current_states,
            old(self).current_states@.len() > 0 ==> final(self).history_states@.len() == if old(
                self,
            ).history_states@.len() + 1 > HISTORY_DEPTH {
                HISTORY_DEPTH as int
            } else {
                old(self).history_states@.len() + 1int
            },
            old(self).current_states@.len() == 0 ==> final(self).history_states
                == old(self).history_states,
            old(self).current_states@.len() > 0 ==> final(self).history_states@ == (seq![
                old(self).current_states,
            ] + old(self).history_states@).subrange(0, final(self).history_states@.len() as int),
            final(self).user_input@.len() == 0,
            final(self).ai_response is None,
            final(self).last_processor is None,
            final(self).messages == old(self).messages,
            final(self).thinking_pool == old(self).thinking_pool,
            final(self).short_term_memory == old(self).short_term_memory,
            final(self).conversation_turns == old(self).conversation_turns,
    {
        if self.current_states.len() > 0 {
            let mut frame: Vec<StateEntry> = Vec::new();
            std::mem::swap(&mut frame, &mut self.current_states);
            self.history_states.push_front(frame);
            assert(self.history_states@ =~= (seq![old(self).current_states]
                + old(self).history_states@));
        }
        let ghost full = self.history_states@;
        if self.history_states.len() > HISTORY_DEPTH {
            self.history_states.pop_back();
        }
        assert(self.history_states@ =~= full.subrange(0, self.history_states@.len() as int));
        self.current_states = Vec::new();
        self.last_processor = None;
        self.user_input = String::new();
        self.ai_response = None;
    }

    /// The state that `name` recorded in the most recent past turn.
    pub fn get_previous_state(&self, name: &str) -> (r: Option<&serde_json::Value>)
        ensures
            r is Some <==> (self.history_states@.len() > 0 && has_state(
                self.history_states@[0]@,
                name@,
            )),
            r matches Some(v) ==> exists|i: int|
                0 <= i < self.history_states@[0]@.len() && self.history_states@[0]@[i].name@
                    == name@ && self.history_states@[0]@[i].value == *v,
    {
        if self.history_states.len() == 0 {
            return None;
        }
        let frame = &self.history_states[0];
        match find_state(frame, name) {
            Some(i) => {
                assert(frame@[i as int].name@ == name@);
                Some(&frame[i].value)
            },
            None => None,
        }
    }

    /// Record `value` as this turn's state of processor `name`, replacing
    /// any earlier one.
    pub fn set_processor_state(&mut self, name: &str, value: serde_json::Value)
        requires
            old(self).wf(),
        ensures
            final(self).wf(),
            has_state(final(self).current_states@, name@),
            exists|i: int|
                0 <= i < final(self).current_states@.len() && final(self).current_states@[i].name@
                    == name@ && final(self).current_states@[i].value == value,
            forall|n: Seq<char>| n != name@ ==> (has_state(final(self).current_states@, n)
                <==> has_state(old(self).current_states@, n)),
            final(self).user_input == old(self).user_input,
            final(self).ai_response == old(self).ai_response,
            final(self).messages == old(self).messages,
            final(self).history_states == old(self).history_states,
            final(self).short_term_memory == old(self).short_term_memory,
            final(self).thinking_pool == old(self).thinking_pool,
            final(self).conversation_turns == old(self).conversation_turns,
            final(self).last_processor == old(self).last_processor,
            final(self).user_name == old(self).user_name,
    {
        let ghost stored = value;
        let entry = StateEntry { name: String::from_str(name), value };
        match find_state(&self.current_states, name) {
            Some(i) => {
                self.current_states.set(i, entry);
                assert(self.current_states@[i as int].name@ == name@);
                assert(self.current_states@[i as int].value == stored);
                assert(forall|k: int|
                    0 <= k < self.current_states@.len() && k != i ==> self.current_states@[k]
                        == old(self).current_states@[k]);
            },
            None => {
                self.current_states.push(entry);
                assert(self.current_states@.last().name@ == name@);
                assert(self.current_states@[self.current_states@.len() - 1].value == stored);
                assert(forall|k: int|
                    0 <= k < old(self).current_states@.len() ==> self.current_states@[k]
                        == old(self).current_states@[k]);
            },
        }
    }
}

/// The index of the entry for `name` in `states`.
pub fn find_state(states: &Vec<StateEntry>, name: &str) -> (r: Option<usize>)
    ensures
        r matches Some(i) ==> i < states@.len() && states@[i as int].name@ == name@,
        r is None ==> !has_state(states@, name@),
{
    let mut i: usize = 0;
    while i < states.len()
        invariant
            i <= states@.len(),
            forall|k: int| 0 <= k < i ==> states@[k].name@ != name@,
        decreases states@.len() - i,
    {
        if text_eq(states[i].name.as_str(), name) {
            return Some(i);
        }
        i = i + 1;
    }
    None
}

} // verus!
