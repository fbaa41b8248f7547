//! Chat messages and the inputs built from them.

use vstd::prelude::*;
use crate::text::{join, join_texts, text_eq};

verus! {

pub open spec fn system_role() -> Seq<char> {
    "system"@
}

pub open spec fn user_role() -> Seq<char> {
    "user"@
}

pub open spec fn assistant_role() -> Seq<char> {
    "assistant"@
}

/// One chat message: a role and its text.
#[derive(Debug, Clone)]
pub struct ChatMessage {
    pub role: String,
    pub content: String,
}

impl ChatMessage {
    pub open spec fn is_system(&self) -> bool {
        self.role@ == system_role()
    }

    pub open spec fn is_user(&self) -> bool {
        self.role@ == user_role()
    }

    pub fn system(content: &str) -> (r: ChatMessage)
        ensures
            r.role@ == system_role(),
            r.content@ == content@,
    {
        ChatMessage { role: String::from_str("system"), content: String::from_str(content) }
    }

    pub fn user(content: &str) -> (r: ChatMessage)
        ensures
            r.role@ == user_role(),
            r.content@ == content@,
    {
        ChatMessage { role: String::from_str("user"), content: String::from_str(content) }
    }

    pub fn assistant(content: &str) -> (r: ChatMessage)
        ensures
            r.role@ == assistant_role(),
            r.content@ == content@,
    {
        ChatMessage { role: String::from_str("assistant"), content: String::from_str(content) }
    }

    /// A copy of this message.
    pub fn duplicate(&self) -> (r: ChatMessage)
        ensures
            r == *self,
    {
        ChatMessage { role: self.role.clone(), content: self.content.clone() }
    }

    pub fn is_system_message(&self) -> (r: bool)
        ensures
            r == self.is_system(),
    {
        text_eq(self.role.as_str(), "system")
    }

    pub fn is_user_message(&self) -> (r: bool)
        ensures
            r == self.is_user(),
    {
        text_eq(self.role.as_str(), "user")
    }
}

/// A user turn as it arrives from a client, before any processing.
#[derive(Debug, Clone)]
pub struct ProcessedInput {
    pub assistant_id: Option<String>,
    pub topic_id: Option<String>,
    pub session_id: Option<String>,
    pub user_message: String,
    pub system_message: Option<String>,
    pub model: String,
    pub stream: bool,
}

/// The pieces that make up one request to the chat model.
#[derive(Debug, Clone)]
pub struct AiContext {
    pub system_prompt: String,
    pub thinking_messages: Vec<ChatMessage>,
    pub memory_messages: Vec<ChatMessage>,
    pub user_message: ChatMessage,
    pub model: Option<String>,
}

pub open spec fn contents(ms: Seq<ChatMessage>) -> Seq<Seq<char>> {
    ms.map_values(|m: ChatMessage| m.content@)
}

/// The text of a section: its heading line, then the messages' texts one per line.
pub open spec fn section_text(heading: Seq<char>, ms: Seq<ChatMessage>) -> Seq<char> {
    heading + "\n"@ + join(contents(ms), "\n"@)
}

/// The texts of `ms`, one per line.
fn joined_contents(ms: &Vec<ChatMessage>) -> (r: String)
    ensures
        r@ == join(contents(ms@), "\n"@),
{
    let mut parts: Vec<String> = Vec::new();
    let mut i: usize = 0;
    while i < ms.len()
        invariant
            i <= ms@.len(),
            parts@.len() == i,
            parts@.map_values(|p: String| p@) == contents(ms@.subrange(0, i as int)),
        decreases ms@.len() - i,
    {
        let ghost before = parts@.map_values(|p: String| p@);
        let ghost old_parts = parts@;
        parts.push(ms[i].content.clone());
        proof {
            let a = parts@.map_values(|p: String| p@);
            let b = contents(ms@.subrange(0, i + 1));
            assert forall|j: int| 0 <= j < a.len() implies a[j] == b[j] by {
                if j < i {
                    assert(parts@[j] == old_parts[j]);
                    assert(a[j] == before[j]);
                    assert(ms@.subrange(0, i + 1)[j] == ms@.subrange(0, i as int)[j]);
                }
            }
            assert(a =~= b);
        }
        i = i + 1;
    }
    assert(ms@.subrange(0, ms@.len() as int) =~= ms@);
    join_texts(&parts, "\n")
}

impl AiContext {
    /// The messages of the request: the system prompt, a system message of
    /// the thinking texts and one of the memory texts (each only when there
    /// are any), then the user's message.
    pub fn to_messages(&self) -> (r: Vec<ChatMessage>)
        ensures
            r@.len() == 2 + (if self.thinking_messages@.len() > 0 { 1int } else { 0 }) + (
            if self.memory_messages@.len() > 0 { 1int } else { 0 }),
            r@[0].is_system() && r@[0].content@ == self.system_prompt@,
            r@.last() == self.user_message,
            self.thinking_messages@.len() > 0 ==> r@[1].is_system() && r@[1].content@
                == section_text("[内部思考]"@, self.thinking_messages@),
            self.memory_messages@.len() > 0 ==> ({
                let k = if self.thinking_messages@.len() > 0 { 2int } else { 1 };
                r@[k].is_system() && r@[k].content@ == section_text(
                    "[相关记忆]"@,
                    self.memory_messages@,
                )
            }),
    {
        let mut messages: Vec<ChatMessage> = Vec::new();
        messages.push(ChatMessage::system(self.system_prompt.as_str()));
        if self.thinking_messages.len() > 0 {
            let mut text = String::from_str("[内部思考]");
            text.append("\n");
            let body = joined_contents(&self.thinking_messages);
            text.append(body.as_str());
            messages.push(ChatMessage::system(text.as_str()));
        }
        if self.memory_messages.len() > 0 {
            let mut text = String::from_str("[相关记忆]");
            text.append("\n");
            let body = joined_contents(&self.memory_messages);
            text.append(body.as_str());
            messages.push(ChatMessage::system(text.as_str()));
        }
        messages.push(self.user_message.duplicate());
        messages
    }
}

/// The text of the last user message in `ms`, or nothing when there is none.
pub open spec fn last_user_text(ms: Seq<ChatMessage>) -> Seq<char>
    decreases ms.len(),
{
    if ms.len() == 0 {
        Seq::empty()
    } else if ms.last().is_user() {
        ms.last().content@
    } else {
        last_user_text(ms.drop_last())
    }
}

/// The text of the most recent user message, empty when there is none.
pub fn extract_user_message(messages: &Vec<ChatMessage>) -> (r: String)
    ensures
        r@ == last_user_text(messages@),
{
    let mut i: usize = messages.len();
    assert(messages@.subrange(0, i as int) =~= messages@);
    while i > 0
        invariant
            i <= messages@.len(),
            last_user_text(messages@) == last_user_text(messages@.subrange(0, i as int)),
        decreases i,
    {
        assert(messages@.subrange(0, i as int).drop_last() =~= messages@.subrange(0, i - 1));
        if messages[i - 1].is_user_message() {
            return messages[i - 1].content.clone();
        }
        i = i - 1;
    }
    String::new()
}

} // verus!
