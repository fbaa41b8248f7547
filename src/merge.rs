//! How a background task's packet is saved over the packet on disk without
//! undoing a newer turn.

use vstd::prelude::*;
use crate::packet::{ConversationPacket, StateEntry, find_state, has_state};
use crate::text::text_eq;
use crate::types::ShortTermMemory;

verus! {

pub open spec fn has_memory_id(pool: Seq<ShortTermMemory>, id: Seq<char>) -> bool {
    exists|i: int| 0 <= i < pool.len() && pool[i].id@ == id
}

/// `acc` with each of `extra` appended whose id it does not hold yet, in order.
pub open spec fn merged_memories(acc: Seq<ShortTermMemory>, extra: Seq<ShortTermMemory>) -> Seq<
    ShortTermMemory,
>
    decreases extra.len(),
{
    if extra.len() == 0 {
        acc
    } else {
        let r = merged_memories(acc, extra.drop_last());
        if has_memory_id(r, extra.last().id@) {
            r
        } else {
            r.push(extra.last())
        }
    }
}

/// `acc` with each of `extra` appended whose name it does not hold yet, in order.
pub open spec fn merged_states(acc: Seq<StateEntry>, extra: Seq<StateEntry>) -> Seq<StateEntry>
    decreases extra.len(),
{
    if extra.len() == 0 {
        acc
    } else {
        let r = merged_states(acc, extra.drop_last());
        if has_state(r, extra.last().name@) {
            r
        } else {
            r.push(extra.last())
        }
    }
}

fn find_memory(pool: &Vec<ShortTermMemory>, id: &str) -> (r: bool)
    ensures
        r == has_memory_id(pool@, id@),
{
    let mut i: usize = 0;
    while i < pool.len()
        invariant
            i <= pool@.len(),
            forall|k: int| 0 <= k < i ==> pool@[k].id@ != id@,
        decreases pool@.len() - i,
    {
        if text_eq(pool[i].id.as_str(), id) {
            return true;
        }
        i = i + 1;
    }
    false
}

/// The packet to save when a background task finishes. Where no turn was
/// committed meanwhile (the disk has as many turns as the task's packet),
/// the task's packet is saved as it is. Otherwise the disk's packet is kept,
/// and only what the task added is merged into it: its short-term memories
/// with new ids, and its processor states under new names.
pub fn merge_background(disk: ConversationPacket, background: ConversationPacket) -> (r:
    ConversationPacket)
    requires
        disk.wf(),
        background.wf(),
    ensures
        r.wf(),
        r.conversation_turns@.len() >= disk.conversation_turns@.len(),
        background.conversation_turns@.len() == disk.conversation_turns@.len() ==> r == background,
        background.conversation_turns@.len() != disk.conversation_turns@.len() ==> {
            &&& r.short_term_memory@ == merged_memories(
                disk.short_term_memory@,
                background.short_term_memory@,
            )
            &&& r.current_states@ == merged_states(disk.current_states@, background.current_states@)
            &&& r.thinking_pool == disk.thinking_pool
            &&& r.last_processor == disk.last_processor
            &&& r.conversation_turns == disk.conversation_turns
            &&& r.messages == disk.messages
            &&& r.user_input == disk.user_input
            &&& r.ai_response == disk.ai_response
            &&& r.history_states == disk.history_states
            &&& r.short_term_memory@.subrange(0, disk.short_term_memory@.len() as int)
                == disk.short_term_memory@
            &&& forall|i: int|
                0 <= i < background.short_term_memory@.len() ==> has_memory_id(
                    r.short_term_memory@,
                    #[trigger] background.short_term_memory@[i].id@,
                )
            &&& r.current_states@.subrange(0, disk.current_states@.len() as int)
                == disk.current_states@
            &&& forall|i: int|
                0 <= i < background.current_states@.len() ==> has_state(
                    r.current_states@,
                    #[trigger] background.current_states@[i].name@,
                )
        },
{
    if background.conversation_turns.len() == disk.conversation_turns.len() {
        return background;
    }
    let ghost disk0 = disk;
    let mut merged = disk;
    let ConversationPacket { short_term_memory: extra_memories, current_states: extra_states, .. } =
        background;
    assert(extra_memories@ == background.short_term_memory@);
    assert(extra_states@ == background.current_states@);
    let mut i: usize = 0;
    while i < extra_memories.len()
        invariant
            extra_memories@ == background.short_term_memory@,
            i <= extra_memories@.len(),
            merged.wf(),
            merged.conversation_turns == disk0.conversation_turns,
            merged.messages == disk0.messages,
            merged.user_input == disk0.user_input,
            merged.ai_response == disk0.ai_response,
            merged.history_states == disk0.history_states,
            merged.current_states == disk0.current_states,
            merged.short_term_memory@.subrange(0, disk0.short_term_memory@.len() as int)
                == disk0.short_term_memory@,
            merged.short_term_memory@.len() >= disk0.short_term_memory@.len(),
            merged.short_term_memory@ == merged_memories(
                disk0.short_term_memory@,
                extra_memories@.subrange(0, i as int),
            ),
            merged.thinking_pool == disk0.thinking_pool,
            merged.last_processor == disk0.last_processor,
            forall|k: int|
                0 <= k < i ==> has_memory_id(
                    merged.short_term_memory@,
                    #[trigger] extra_memories@[k].id@,
                ),
        decreases extra_memories@.len() - i,
    {
        let m = &extra_memories[i];
        let ghost before = merged.short_term_memory@;
        assert(extra_memories@.subrange(0, i + 1).drop_last() =~= extra_memories@.subrange(0, i as int));
        assert(extra_memories@.subrange(0, i + 1).last() == extra_memories@[i as int]);
        if !find_memory(&merged.short_term_memory, m.id.as_str()) {
            merged.short_term_memory.push(m.duplicate());
            proof {
                assert(merged.short_term_memory@.subrange(0, disk0.short_term_memory@.len() as int)
                    =~= before.subrange(0, disk0.short_term_memory@.len() as int));
                assert(merged.short_term_memory@.last().id@ == m.id@);
            }
        }
        proof {
            assert forall|k: int| 0 <= k < i + 1 implies has_memory_id(
                merged.short_term_memory@,
                #[trigger] extra_memories@[k].id@,
            ) by {
                if k < i {
                    let j = choose|j: int|
                        0 <= j < before.len() && before[j].id@ == extra_memories@[k].id@;
                    assert(merged.short_term_memory@[j] == before[j]);
                } else if has_memory_id(before, m.id@) {
                    let j = choose|j: int| 0 <= j < before.len() && before[j].id@ == m.id@;
                    assert(merged.short_term_memory@[j] == before[j]);
                } else {
                    assert(merged.short_term_memory@[before.len() as int].id@ == m.id@);
                }
            }
        }
        i = i + 1;
    }
    assert(extra_memories@.subrange(0, extra_memories@.len() as int) =~= extra_memories@);
    let ghost names = extra_states@.map_values(|e: StateEntry| e.name@);
    let ghost stm1 = merged.short_term_memory;
    let mut states = extra_states;
    let total = states.len();
    let mut moved: usize = 0;
    while states.len() > 0
        invariant
            total == names.len(),
            merged.short_term_memory == stm1,
            names == background.current_states@.map_values(|e: StateEntry| e.name@),
            moved + states@.len() == names.len(),
            forall|k: int| 0 <= k < states@.len() ==> #[trigger] states@[k].name@ == names[moved + k],
            merged.wf(),
            merged.conversation_turns == disk0.conversation_turns,
            merged.messages == disk0.messages,
            merged.user_input == disk0.user_input,
            merged.ai_response == disk0.ai_response,
            merged.history_states == disk0.history_states,
            merged.short_term_memory@.subrange(0, disk0.short_term_memory@.len() as int)
                == disk0.short_term_memory@,
            merged.current_states@.subrange(0, disk0.current_states@.len() as int)
                == disk0.current_states@,
            merged.current_states@.len() >= disk0.current_states@.len(),
            forall|k: int| 0 <= k < moved ==> has_state(merged.current_states@, #[trigger] names[k]),
            states@ == background.current_states@.subrange(moved as int, names.len() as int),
            merged.current_states@ == merged_states(
                disk0.current_states@,
                background.current_states@.subrange(0, moved as int),
            ),
            merged.thinking_pool == disk0.thinking_pool,
            merged.last_processor == disk0.last_processor,
        decreases states@.len(),
    {
        let ghost before = merged.current_states@;
        let ghost rest = states@;
        let e = states.remove(0);
        proof {
            let bg = background.current_states@;
            assert(e == bg[moved as int]);
            assert(bg.subrange(0, moved + 1).drop_last() =~= bg.subrange(0, moved as int));
            assert(bg.subrange(0, moved + 1).last() == bg[moved as int]);
            assert(states@ =~= bg.subrange(moved + 1, names.len() as int));
            assert(e.name@ == names[moved as int]);
            assert forall|k: int| 0 <= k < states@.len() implies #[trigger] states@[k].name@
                == names[moved + 1 + k] by {
                assert(states@[k] == rest[k + 1]);
            }
        }
        match find_state(&merged.current_states, e.name.as_str()) {
            Some(j) => {
                assert(merged.current_states@[j as int].name@ == names[moved as int]);
            },
            None => {
                let ghost en = e.name@;
                merged.current_states.push(e);
                proof {
                    assert(merged.current_states@[before.len() as int].name@ == names[moved as int]);
                    assert(merged.current_states@.subrange(0, disk0.current_states@.len() as int)
                        =~= before.subrange(0, disk0.current_states@.len() as int));
                    assert forall|a: int, b: int|
                        0 <= a < b < merged.current_states@.len() implies merged.current_states@[a].name@
                        != merged.current_states@[b].name@ by {
                        if b < before.len() {
                            assert(merged.current_states@[a] == before[a]);
                            assert(merged.current_states@[b] == before[b]);
                        } else {
                            assert(merged.current_states@[a] == before[a]);
                        }
                    }
                }
            },
        }
        proof {
            assert(has_state(merged.current_states@, names[moved as int]));
            assert forall|k: int| 0 <= k < moved + 1 implies has_state(
                merged.current_states@,
                #[trigger] names[k],
            ) by {
                if k < moved {
                    let j = choose|j: int| 0 <= j < before.len() && before[j].name@ == names[k];
                    assert(merged.current_states@[j] == before[j]);
                }
            }
        }
        moved = moved + 1;
    }
    proof {
        assert(background.current_states@.subrange(0, moved as int) =~= background.current_states@);
        assert forall|i: int| 0 <= i < background.current_states@.len() implies has_state(
            merged.current_states@,
            #[trigger] background.current_states@[i].name@,
        ) by {
            assert(names[i] == background.current_states@[i].name@);
        }
    }
    merged
}

} // verus!
