//! The steps of a turn around the model call that touch the packet.

use vstd::prelude::*;
use crate::message::{ChatMessage, assistant_role};
use crate::outside::think_stripped;
use crate::packet::ConversationPacket;
use crate::text::trim;
use crate::thinking::strip_thinking_tags;

verus! {

/// Copies of `ms`.
fn copy_messages(ms: &Vec<ChatMessage>) -> (r: Vec<ChatMessage>)
    ensures
        r@ == ms@,
{
    let mut out: Vec<ChatMessage> = Vec::new();
    let mut i: usize = 0;
    while i < ms.len()
        invariant
            i <= ms@.len(),
            out@ == ms@.subrange(0, i as int),
        decreases ms@.len() - i,
    {
        out.push(ms[i].duplicate());
        assert(out@ =~= ms@.subrange(0, i + 1));
        i = i + 1;
    }
    assert(ms@.subrange(0, ms@.len() as int) =~= ms@);
    out
}

/// The text shown for a failed model call.
pub open spec fn error_text(detail: Seq<char>) -> Seq<char> {
    "[错误] "@ + detail
}

impl ConversationPacket {
    /// Keep the messages about to be sent, for inspection.
    pub fn snapshot_request(&mut self)
        ensures
            final(self).last_request_messages@ == old(self).messages@,
            final(self).messages == old(self).messages,
            final(self).user_input == old(self).user_input,
            final(self).ai_response == old(self).ai_response,
            final(self).current_states == old(self).current_states,
            final(self).history_states == old(self).history_states,
            final(self).conversation_turns == old(self).conversation_turns,
            final(self).short_term_memory == old(self).short_term_memory,
    {
        self.last_request_messages = copy_messages(&self.messages);
    }

    /// The model's full answer arrived: drop its thinking spans, append it
    /// as the assistant's message and record the turn.
    pub fn complete_response(&mut self, raw: &str)
        requires
            old(self).wf(),
        ensures
            final(self).wf(),
            final(self).messages@.drop_last() == old(self).messages@,
            final(self).messages@.last().role@ == assistant_role(),
            final(self).messages@.last().content@ == trim(think_stripped(raw@)),
            (final(self).ai_response matches Some(a) && a@ == trim(think_stripped(raw@))),
            final(self).user_input == old(self).user_input,
            old(self).user_input@.len() > 0 ==> final(self).conversation_turns@.len()
                == old(self).conversation_turns@.len() + 1
                && final(self).conversation_turns@.last().assistant_message@ == trim(
                think_stripped(raw@),
            ),
            old(self).user_input@.len() == 0 ==> final(self).conversation_turns == old(
                self,
            ).conversation_turns,
            final(self).short_term_memory == old(self).short_term_memory,
    {
        let cleaned = strip_thinking_tags(raw);
        self.append_assistant_message(cleaned.as_str());
        self.save_conversation_turn();
    }

    /// The model call failed: the response becomes the error text.
    pub fn record_ai_failure(&mut self, detail: &str)
        ensures
            (final(self).ai_response matches Some(a) && a@ == error_text(detail@)),
            final(self).messages == old(self).messages,
            final(self).user_input == old(self).user_input,
            final(self).conversation_turns == old(self).conversation_turns,
            final(self).current_states == old(self).current_states,
            final(self).history_states == old(self).history_states,
            final(self).short_term_memory == old(self).short_term_memory,
    {
        let mut text = String::from_str("[错误] ");
        text.append(detail);
        self.ai_response = Some(text);
    }
}

} // verus!
