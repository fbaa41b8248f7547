//! The content chunker: renders the conversation for the model, parses the
//! chunks out of the model's XML answer, retries with partial salvage, and
//! turns the chunks into short-term memories.

use vstd::prelude::*;
use crate::message::{ChatMessage, assistant_role, user_role};
use crate::outside::{json_bool, json_count, json_object, json_text, now_millis};
use crate::packet::{ConversationPacket, has_state};
use crate::processors::{ProcessorError, keep_system_only, system_only};
use crate::text::{
    decimal, decimal_text, chars_of, find_from, first_at, join, join_texts, last_at, lemma_first_at_bounds, rfind,
    slice_text, text_eq, trim, trim_bounds,
};
use crate::types::{MemorySource, SCORE_ONE, ShortTermMemory};

verus! {

/// How many times the model is asked before the chunker gives up.
pub const MAX_ATTEMPTS: usize = 3;

#[derive(Debug, Clone)]
pub struct ContentChunk {
    pub summary: String,
    pub content: String,
    pub chunk_type: String,
}

/// The texts of a chunk: summary, content and type.
pub type ChunkText = (Seq<char>, Seq<char>, Seq<char>);

pub open spec fn chunk_text(c: ContentChunk) -> ChunkText {
    (c.summary@, c.content@, c.chunk_type@)
}

pub open spec fn chunk_texts(cs: Seq<ContentChunk>) -> Seq<ChunkText> {
    cs.map_values(|c: ContentChunk| chunk_text(c))
}

pub open spec fn open_tag(tag: Seq<char>) -> Seq<char> {
    "<"@ + tag + ">"@
}

pub open spec fn close_tag(tag: Seq<char>) -> Seq<char> {
    "</"@ + tag + ">"@
}

/// The raw text between the first `<tag>` and the first `</tag>` after it.
pub open spec fn raw_tag(s: Seq<char>, tag: Seq<char>) -> Option<Seq<char>> {
    match first_at(s, 0, open_tag(tag)) {
        Some(a) => {
            let cs = a + open_tag(tag).len();
            match first_at(s, cs, close_tag(tag)) {
                Some(b) => Some(s.subrange(cs, b)),
                None => None,
            }
        },
        None => None,
    }
}

/// The trimmed text of the first `<tag>` element.
pub open spec fn tag_text(s: Seq<char>, tag: Seq<char>) -> Option<Seq<char>> {
    match raw_tag(s, tag) {
        Some(raw) => Some(trim(raw)),
        None => None,
    }
}

pub open spec fn cdata_open() -> Seq<char> {
    "<![CDATA["@
}

pub open spec fn cdata_close() -> Seq<char> {
    "]]>"@
}

/// The text of the first `<tag>` element: what its CDATA section holds when
/// it has a complete one, else its trimmed text.
pub open spec fn cdata_tag_text(s: Seq<char>, tag: Seq<char>) -> Option<Seq<char>> {
    match raw_tag(s, tag) {
        Some(raw) => match first_at(raw, 0, cdata_open()) {
            Some(c0) => match first_at(raw, c0 + cdata_open().len(), cdata_close()) {
                Some(c1) => Some(raw.subrange(c0 + cdata_open().len(), c1)),
                None => Some(trim(raw)),
            },
            None => Some(trim(raw)),
        },
        None => None,
    }
}

/// One chunk element: a summary and a content are required, the type
/// defaults to `other`.
pub open spec fn single_chunk(s: Seq<char>) -> Option<ChunkText> {
    match tag_text(s, "summary"@) {
        Some(summary) => match cdata_tag_text(s, "content"@) {
            Some(content) => Some(
                (
                    summary,
                    content,
                    match tag_text(s, "type"@) {
                        Some(t) => t,
                        None => "other"@,
                    },
                ),
            ),
            None => None,
        },
        None => None,
    }
}

/// The chunks of every complete `<chunk>…</chunk>` element from `start` on,
/// skipping those that do not parse.
pub open spec fn chunks_from(s: Seq<char>, start: int) -> Seq<ChunkText>
    decreases s.len() + 1 - start,
{
    if start < 0 {
        Seq::empty()
    } else {
        match first_at(s, start, "<chunk>"@) {
            Some(a) => match first_at(s, a, "</chunk>"@) {
                Some(b) => {
                    let end = b + "</chunk>"@.len();
                    if end <= start || end > s.len() {
                        Seq::empty()
                    } else {
                        let rest = chunks_from(s, end);
                        match single_chunk(s.subrange(a, end)) {
                            Some(c) => seq![c] + rest,
                            None => rest,
                        }
                    }
                },
                None => Seq::empty(),
            },
            None => Seq::empty(),
        }
    }
}

/// The part of the answer that holds the chunks: from `<chunks>` to its
/// closing tag, or else from the first `<chunk>` to the last `</chunk>`.
pub open spec fn xml_region(s: Seq<char>) -> Option<Seq<char>> {
    let wrapped = match first_at(s, 0, "<chunks>"@) {
        Some(a) => match first_at(s, a, "</chunks>"@) {
            Some(b) => Some(s.subrange(a, b + "</chunks>"@.len())),
            None => None,
        },
        None => None,
    };
    if wrapped is Some {
        wrapped
    } else {
        match first_at(s, 0, "<chunk>"@) {
            Some(f) => match last_at(s, "</chunk>"@) {
                Some(l) => if f <= l + "</chunk>"@.len() {
                    Some(s.subrange(f, l + "</chunk>"@.len()))
                } else {
                    None
                },
                None => None,
            },
            None => None,
        }
    }
}

/// The chunks that a full parse of the answer gives.
pub open spec fn parsed_chunks(s: Seq<char>) -> Seq<ChunkText> {
    match xml_region(s) {
        Some(x) => chunks_from(x, 0),
        None => Seq::empty(),
    }
}

fn tag_chars(tag: &str, closing: bool) -> (r: Vec<char>)
    ensures
        r@ == if closing {
            close_tag(tag@)
        } else {
            open_tag(tag@)
        },
{
    let mut t = if closing {
        String::from_str("</")
    } else {
        String::from_str("<")
    };
    t.append(tag);
    t.append(">");
    chars_of(t.as_str())
}

/// The character bounds of the raw text of the first `<tag>` element.
fn raw_tag_bounds(sv: &Vec<char>, tag: &str) -> (r: Option<(usize, usize)>)
    ensures
        r is None <==> raw_tag(sv@, tag@) is None,
        r matches Some(p) ==> p.0 <= p.1 <= sv@.len() && raw_tag(sv@, tag@) == Some(
            sv@.subrange(p.0 as int, p.1 as int),
        ),
{
    let open = tag_chars(tag, false);
    let close = tag_chars(tag, true);
    match find_from(sv, 0, &open) {
        Some(a) => {
            proof {
                lemma_first_at_bounds(sv@, 0, open@);
            }
            let cs = a + open.len();
            match find_from(sv, cs, &close) {
                Some(b) => {
                    proof {
                        lemma_first_at_bounds(sv@, cs as int, close@);
                    }
                    Some((cs, b))
                },
                None => None,
            }
        },
        None => None,
    }
}

impl ContentChunker {
    /// The trimmed text of the first `<tag>` element of `xml`.
    pub fn extract_tag_content(&self, xml: &str, tag: &str) -> (r: Option<String>)
        ensures
            r is None <==> tag_text(xml@, tag@) is None,
            r matches Some(t) ==> tag_text(xml@, tag@) == Some(t@),
    {
        let sv = chars_of(xml);
        match raw_tag_bounds(&sv, tag) {
            Some((from, to)) => {
                let (lo, hi) = trim_bounds(&sv, from, to);
                Some(slice_text(xml, lo, hi))
            },
            None => None,
        }
    }

    /// The text of the first `<tag>` element of `xml`, read through its
    /// CDATA section when it has a complete one.
    pub fn extract_tag_content_with_cdata(&self, xml: &str, tag: &str) -> (r: Option<String>)
        ensures
            r is None <==> cdata_tag_text(xml@, tag@) is None,
            r matches Some(t) ==> cdata_tag_text(xml@, tag@) == Some(t@),
    {
        let sv = chars_of(xml);
        match raw_tag_bounds(&sv, tag) {
            Some((from, to)) => {
                let ghost raw = sv@.subrange(from as int, to as int);
                let raw_text = slice_text(xml, from, to);
                let rv = chars_of(raw_text.as_str());
                let copen = chars_of("<![CDATA[");
                let cclose = chars_of("]]>");
                match find_from(&rv, 0, &copen) {
                    Some(c0) => {
                        proof {
                            lemma_first_at_bounds(rv@, 0, copen@);
                        }
                        let inner = c0 + copen.len();
                        match find_from(&rv, inner, &cclose) {
                            Some(c1) => {
                                proof {
                                    lemma_first_at_bounds(rv@, inner as int, cclose@);
                                }
                                return Some(slice_text(raw_text.as_str(), inner, c1));
                            },
                            None => {},
                        }
                    },
                    None => {},
                }
                let (lo, hi) = trim_bounds(&rv, 0, rv.len());
                assert(rv@.subrange(0, rv@.len() as int) =~= rv@);
                Some(slice_text(raw_text.as_str(), lo, hi))
            },
            None => None,
        }
    }

    /// One `<chunk>` element: summary and content are required, the type
    /// defaults to `other`.
    pub fn parse_single_chunk(&self, chunk_xml: &str) -> (r: Option<ContentChunk>)
        ensures
            r is None <==> single_chunk(chunk_xml@) is None,
            r matches Some(c) ==> single_chunk(chunk_xml@) == Some(chunk_text(c)),
    {
        let summary = match self.extract_tag_content(chunk_xml, "summary") {
            Some(s) => s,
            None => {
                return None;
            },
        };
        let content = match self.extract_tag_content_with_cdata(chunk_xml, "content") {
            Some(c) => c,
            None => {
                return None;
            },
        };
        let chunk_type = match self.extract_tag_content(chunk_xml, "type") {
            Some(t) => t,
            None => String::from_str("other"),
        };
        Some(ContentChunk { summary, content, chunk_type })
    }

    /// Every complete `<chunk>` element of `text` that parses, in order.
    fn chunks_in(&self, text: &str) -> (r: Vec<ContentChunk>)
        ensures
            chunk_texts(r@) == chunks_from(text@, 0),
    {
        let sv = chars_of(text);
        let open = chars_of("<chunk>");
        let close = chars_of("</chunk>");
        let mut out: Vec<ContentChunk> = Vec::new();
        let mut start: usize = 0;
        loop
            invariant
                sv@ == text@,
                open@ == "<chunk>"@,
                close@ == "</chunk>"@,
                start <= sv@.len(),
                chunk_texts(out@) + chunks_from(sv@, start as int) == chunks_from(sv@, 0),
            decreases sv@.len() - start,
        {
            let a = match find_from(&sv, start, &open) {
                Some(a) => a,
                None => {
                    assert(chunk_texts(out@) =~= chunks_from(sv@, 0));
                    return out;
                },
            };
            proof {
                lemma_first_at_bounds(sv@, start as int, open@);
            }
            let b = match find_from(&sv, a, &close) {
                Some(b) => b,
                None => {
                    assert(chunk_texts(out@) =~= chunks_from(sv@, 0));
                    return out;
                },
            };
            proof {
                lemma_first_at_bounds(sv@, a as int, close@);
                reveal_strlit("</chunk>");
            }
            let end = b + close.len();
            if end <= start {
                assert(chunk_texts(out@) =~= chunks_from(sv@, 0));
                return out;
            }
            let piece = slice_text(text, a, end);
            let ghost before = out@;
            match self.parse_single_chunk(piece.as_str()) {
                Some(c) => {
                    out.push(c);
                    proof {
                        assert(chunk_texts(out@) =~= chunk_texts(before).push(chunk_text(c)));
                        assert(chunk_texts(out@) + chunks_from(sv@, end as int) =~= chunk_texts(
                            before,
                        ) + (seq![chunk_text(c)] + chunks_from(sv@, end as int)));
                    }
                },
                None => {},
            }
            start = end;
        }
    }

    /// The region of `response` that holds the chunks, as character bounds.
    fn xml_bounds(&self, sv: &Vec<char>) -> (r: Option<(usize, usize)>)
        ensures
            r is None <==> xml_region(sv@) is None,
            r matches Some(p) ==> p.0 <= p.1 <= sv@.len() && xml_region(sv@) == Some(
                sv@.subrange(p.0 as int, p.1 as int),
            ),
    {
        let wrap_open = chars_of("<chunks>");
        let wrap_close = chars_of("</chunks>");
        proof {
            reveal_strlit("</chunks>");
            reveal_strlit("</chunk>");
        }
        match find_from(sv, 0, &wrap_open) {
            Some(a) => {
                proof {
                    lemma_first_at_bounds(sv@, 0, wrap_open@);
                }
                match find_from(sv, a, &wrap_close) {
                    Some(b) => {
                        proof {
                            lemma_first_at_bounds(sv@, a as int, wrap_close@);
                        }
                        return Some((a, b + wrap_close.len()));
                    },
                    None => {},
                }
            },
            None => {},
        }
        let open = chars_of("<chunk>");
        let close = chars_of("</chunk>");
        match find_from(sv, 0, &open) {
            Some(f) => match rfind(sv, &close) {
                Some(l) => {
                    let end = l + close.len();
                    if f <= end {
                        Some((f, end))
                    } else {
                        None
                    }
                },
                None => None,
            },
            None => None,
        }
    }

    /// The XML region of the model's answer.
    pub fn extract_xml_content(&self, response: &str) -> (r: Result<String, ProcessorError>)
        ensures
            r is Err <==> xml_region(response@) is None,
            r matches Ok(x) ==> xml_region(response@) == Some(x@),
    {
        let sv = chars_of(response);
        match self.xml_bounds(&sv) {
            Some((from, to)) => Ok(slice_text(response, from, to)),
            None => {
                let mut msg = String::from_str("未找到有效的 XML 结构。响应预览: ");
                let n = if sv.len() < 300 {
                    sv.len()
                } else {
                    300
                };
                let preview = slice_text(response, 0, n);
                msg.append(preview.as_str());
                msg.append("...");
                Err(ProcessorError::Internal(msg))
            },
        }
    }

    /// The chunks of the model's answer; an answer without any is an error.
    pub fn parse_chunks(&self, response: &str) -> (r: Result<Vec<ContentChunk>, ProcessorError>)
        ensures
            r is Err <==> parsed_chunks(response@).len() == 0,
            r matches Ok(cs) ==> chunk_texts(cs@) == parsed_chunks(response@),
    {
        let xml = match self.extract_xml_content(response) {
            Ok(x) => x,
            Err(e) => {
                return Err(e);
            },
        };
        let chunks = self.chunks_in(xml.as_str());
        if chunks.len() == 0 {
            let sv = chars_of(response);
            let n = if sv.len() < 500 {
                sv.len()
            } else {
                500
            };
            let mut msg = String::from_str("未能从响应中解析出任何切块。响应预览: ");
            let preview = slice_text(response, 0, n);
            msg.append(preview.as_str());
            msg.append("...");
            return Err(ProcessorError::Internal(msg));
        }
        Ok(chunks)
    }

    /// Whatever complete chunk elements of the answer parse, wherever they
    /// stand; nothing when none does.
    pub fn try_partial_parse(&self, response: &str) -> (r: Option<Vec<ContentChunk>>)
        ensures
            r is None <==> chunks_from(response@, 0).len() == 0,
            r matches Some(cs) ==> chunk_texts(cs@) == chunks_from(response@, 0),
    {
        let chunks = self.chunks_in(response);
        if chunks.len() == 0 {
            None
        } else {
            Some(chunks)
        }
    }
}

/// Splits a turn's conversation into chunks of meaning.
pub struct ContentChunker;

pub open spec fn role_label(m: ChatMessage, user_name: Seq<char>, assistant_name: Seq<char>) -> Seq<
    char,
> {
    if m.role@ == user_role() {
        user_name
    } else if m.role@ == assistant_role() {
        assistant_name
    } else {
        m.role@
    }
}

pub open spec fn transcript_line(m: ChatMessage, user_name: Seq<char>, assistant_name: Seq<char>) -> Seq<
    char,
> {
    "【"@ + role_label(m, user_name, assistant_name) + "】: "@ + m.content@
}

pub open spec fn not_system() -> spec_fn(ChatMessage) -> bool {
    |m: ChatMessage| !m.is_system()
}

/// The non-system messages, one labelled paragraph each.
pub open spec fn transcript(ms: Seq<ChatMessage>, user_name: Seq<char>, assistant_name: Seq<char>) -> Seq<
    char,
> {
    join(
        ms.filter(not_system()).map_values(
            |m: ChatMessage| transcript_line(m, user_name, assistant_name),
        ),
        "\n\n"@,
    )
}

pub open spec fn chunk_prompt(conversation: Seq<char>) -> Seq<char> {
    prompt_head() + conversation + prompt_tail()
}

pub open spec fn prompt_head() -> Seq<char> {
    "你是一个对话内容分析专家。请将以下对话内容按逻辑或步骤切分成独立的信息块。\n\n要求：\n1. 每个块应该是一个完整的逻辑单元（一个话题、一个步骤、一个结论等）\n2. 为每个块生成一个简洁的总结标题（不超过50字）\n3. 保留块的详细内容，内容可以包含任意字符\n\n输出格式（XML，内容用CDATA包裹）：\n<chunks>\n  <chunk>\n    <summary>简洁的总结标题</summary>\n    <content><![CDATA[该块的详细内容，可包含任意字符]]></content>\n    <type>fact</type>\n  </chunk>\n</chunks>\n\ntype可选值：fact/event/preference/knowledge/task/other\n\n对话内容：\n"@
}

pub open spec fn prompt_tail() -> Seq<char> {
    "\n\n请直接输出XML，不要有其他内容。"@
}

/// The decimal text of a millisecond stamp, with a minus sign when negative.
pub open spec fn stamp_text_of(t: i64) -> Seq<char> {
    if t < 0 {
        "-"@ + decimal((0 - t) as nat)
    } else {
        decimal(t as nat)
    }
}

/// The id of chunk `i` of a batch stamped `stamp`: `chunk_<stamp>_<i>`.
pub open spec fn chunk_id(stamp: Seq<char>, i: int) -> Seq<char> {
    "chunk_"@ + stamp + "_"@ + decimal(i as nat)
}

/// `m` is the short-term memory that chunk `c` becomes.
pub open spec fn chunk_memory(c: ContentChunk, m: ShortTermMemory) -> bool {
    &&& m.summary@ == c.summary@
    &&& m.content@ == c.content@
    &&& m.memory_type@ == c.chunk_type@
    &&& !m.should_expand
    &&& m.relevance == SCORE_ONE
    &&& m.confidence == SCORE_ONE
    &&& m.source == MemorySource::CurrentConversation
}

impl ContentChunker {
    pub fn new() -> (r: ContentChunker) {
        ContentChunker
    }

    pub fn name(&self) -> (r: &'static str) {
        "ContentChunker"
    }

    pub fn requires_memory(&self) -> (r: bool)
        ensures
            r,
    {
        true
    }

    /// The conversation as the model reads it: each non-system message as
    /// `【name】: text`, paragraphs apart.
    pub fn format_conversation(&self, messages: &Vec<ChatMessage>, user_name: &str, assistant_name: &str) -> (r:
        String)
        ensures
            r@ == transcript(messages@, user_name@, assistant_name@),
    {
        let mut parts: Vec<String> = Vec::new();
        let mut i: usize = 0;
        while i < messages.len()
            invariant
                i <= messages@.len(),
                parts@.map_values(|p: String| p@) == messages@.subrange(0, i as int).filter(
                    not_system(),
                ).map_values(|m: ChatMessage| transcript_line(m, user_name@, assistant_name@)),
            decreases messages@.len() - i,
        {
            proof {
                assert(messages@.subrange(0, i + 1) =~= messages@.subrange(0, i as int).push(
                    messages@[i as int],
                ));
                messages@.subrange(0, i as int).lemma_filter_push(messages@[i as int], not_system());
            }
            let m = &messages[i];
            if !m.is_system_message() {
                let mut line = String::from_str("【");
                if m.is_user_message() {
                    line.append(user_name);
                } else if text_eq(m.role.as_str(), "assistant") {
                    line.append(assistant_name);
                } else {
                    line.append(m.role.as_str());
                }
                line.append("】: ");
                line.append(m.content.as_str());
                let ghost before = parts@;
                parts.push(line);
                proof {
                    assert(parts@.map_values(|p: String| p@) =~= before.map_values(|p: String| p@).push(
                        transcript_line(messages@[i as int], user_name@, assistant_name@),
                    ));
                }
            }
            i = i + 1;
        }
        assert(messages@.subrange(0, messages@.len() as int) =~= messages@);
        join_texts(&parts, "\n\n")
    }

    /// Start the step: with nothing to chunk, record the skip and return
    /// nothing; else return the prompt for the model.
    pub fn begin(&self, packet: &mut ConversationPacket) -> (r: Option<String>)
        requires
            old(packet).wf(),
        ensures
            final(packet).wf(),
            final(packet).messages == old(packet).messages,
            final(packet).user_input == old(packet).user_input,
            final(packet).short_term_memory == old(packet).short_term_memory,
            final(packet).conversation_turns == old(packet).conversation_turns,
            transcript(old(packet).messages@, old(packet).user_name@, old(packet).assistant_name@).len()
                == 0 <==> r is None,
            r is None ==> has_state(final(packet).current_states@, "ContentChunker"@),
            r is None ==> final(packet).current_states@.len() >= 1,
            r matches Some(p) ==> p@ == chunk_prompt(
                transcript(old(packet).messages@, old(packet).user_name@, old(packet).assistant_name@),
            ) && final(packet).current_states == old(packet).current_states,
    {
        let conversation = self.format_conversation(
            &packet.messages,
            packet.user_name.as_str(),
            packet.assistant_name.as_str(),
        );
        if conversation.unicode_len() == 0 {
            let mut entries: Vec<(String, serde_json::Value)> = Vec::new();
            entries.push((String::from_str("skipped"), json_bool(true)));
            entries.push(
                (String::from_str("reason"), json_text(String::from_str("empty_conversation"))),
            );
            packet.set_processor_state("ContentChunker", json_object(entries));
            proof {
                reveal_strlit("ContentChunker");
                assert(has_state(packet.current_states@, "ContentChunker"@));
            }
            return None;
        }
        let mut prompt = String::from_str(
            "你是一个对话内容分析专家。请将以下对话内容按逻辑或步骤切分成独立的信息块。\n\n要求：\n1. 每个块应该是一个完整的逻辑单元（一个话题、一个步骤、一个结论等）\n2. 为每个块生成一个简洁的总结标题（不超过50字）\n3. 保留块的详细内容，内容可以包含任意字符\n\n输出格式（XML，内容用CDATA包裹）：\n<chunks>\n  <chunk>\n    <summary>简洁的总结标题</summary>\n    <content><![CDATA[该块的详细内容，可包含任意字符]]></content>\n    <type>fact</type>\n  </chunk>\n</chunks>\n\ntype可选值：fact/event/preference/knowledge/task/other\n\n对话内容：\n",
        );
        prompt.append(conversation.as_str());
        prompt.append("\n\n请直接输出XML，不要有其他内容。");
        Some(prompt)
    }

    /// Finish the step with the chunks: each becomes a short-term memory
    /// (full relevance and confidence, not expanded, from the current
    /// conversation, id `chunk_<millis>_<i>`), and the context keeps only its
    /// first system message.
    pub fn apply_chunks(&self, packet: &mut ConversationPacket, chunks: &Vec<ContentChunk>)
        requires
            old(packet).wf(),
        ensures
            final(packet).wf(),
            final(packet).user_input == old(packet).user_input,
            final(packet).ai_response == old(packet).ai_response,
            final(packet).conversation_turns == old(packet).conversation_turns,
            final(packet).history_states == old(packet).history_states,
            final(packet).messages@ == system_only(old(packet).messages@),
            forall|i: int|
                0 <= i < final(packet).messages@.len() ==> final(packet).messages@[i].is_system(),
            final(packet).messages@.len() <= 1,
            final(packet).short_term_memory@.len() == old(packet).short_term_memory@.len()
                + chunks@.len(),
            final(packet).short_term_memory@.subrange(0, old(packet).short_term_memory@.len() as int)
                == old(packet).short_term_memory@,
            forall|i: int|
                0 <= i < chunks@.len() ==> chunk_memory(
                    #[trigger] chunks@[i],
                    final(packet).short_term_memory@[old(packet).short_term_memory@.len() + i],
                ),
            has_state(final(packet).current_states@, "ContentChunker"@),
            exists|t: i64|
                forall|i: int|
                    0 <= i < chunks@.len() ==> final(packet).short_term_memory@[old(
                        packet,
                    ).short_term_memory@.len() + i].id@ == chunk_id(#[trigger] stamp_text_of(t), i),
    {
        let stamp = now_millis();
        let stamp_text = if stamp < 0 {
            let mut t = String::from_str("-");
            let digits = decimal_text((0i128 - stamp as i128) as u64);
            t.append(digits.as_str());
            t
        } else {
            decimal_text(stamp as u64)
        };
        assert(stamp_text@ == stamp_text_of(stamp)) by {
            if stamp < 0 {
                assert(((0i128 - stamp as i128) as u64) as nat == (0 - stamp) as nat);
            }
        }
        let ghost base = packet.short_term_memory@;
        let mut listed: Vec<serde_json::Value> = Vec::new();
        let mut i: usize = 0;
        while i < chunks.len()
            invariant
                i <= chunks@.len(),
                packet.wf(),
                packet.user_input == old(packet).user_input,
                packet.ai_response == old(packet).ai_response,
                packet.conversation_turns == old(packet).conversation_turns,
                packet.history_states == old(packet).history_states,
                packet.messages == old(packet).messages,
                base == old(packet).short_term_memory@,
                packet.short_term_memory@.len() == base.len() + i,
                packet.short_term_memory@.subrange(0, base.len() as int) == base,
                stamp_text@ == stamp_text_of(stamp),
                forall|k: int|
                    0 <= k < i ==> (#[trigger] packet.short_term_memory@[base.len() + k]).id@
                        == chunk_id(stamp_text@, k),
                forall|k: int|
                    0 <= k < i ==> chunk_memory(
                        #[trigger] chunks@[k],
                        packet.short_term_memory@[base.len() + k],
                    ),
            decreases chunks@.len() - i,
        {
            let c = &chunks[i];
            let mut id = String::from_str("chunk_");
            id.append(stamp_text.as_str());
            id.append("_");
            let idx = decimal_text(i as u64);
            id.append(idx.as_str());
            assert(id@ == chunk_id(stamp_text@, i as int));
            let memory = ShortTermMemory {
                id,
                summary: c.summary.clone(),
                content: c.content.clone(),
                memory_type: c.chunk_type.clone(),
                should_expand: false,
                relevance: SCORE_ONE,
                confidence: SCORE_ONE,
                source: MemorySource::CurrentConversation,
                timestamp: now_millis(),
            };
            let ghost before = packet.short_term_memory@;
            packet.add_short_term_memory(memory);
            proof {
                assert(packet.short_term_memory@.subrange(0, base.len() as int) =~= before.subrange(
                    0,
                    base.len() as int,
                ));
                assert forall|k: int| 0 <= k < i + 1 implies chunk_memory(
                    #[trigger] chunks@[k],
                    packet.short_term_memory@[base.len() + k],
                ) by {
                    if k < i {
                        assert(packet.short_term_memory@[base.len() + k] == before[base.len() + k]);
                    }
                }
                assert forall|k: int| 0 <= k < i + 1 implies (#[trigger] packet.short_term_memory@[base.len()
                    + k]).id@ == chunk_id(stamp_text@, k) by {
                    if k < i {
                        assert(packet.short_term_memory@[base.len() + k] == before[base.len() + k]);
                    }
                }
            }
            let mut fields: Vec<(String, serde_json::Value)> = Vec::new();
            fields.push((String::from_str("summary"), json_text(c.summary.clone())));
            fields.push((String::from_str("content"), json_text(c.content.clone())));
            fields.push((String::from_str("type"), json_text(c.chunk_type.clone())));
            listed.push(json_object(fields));
            i = i + 1;
        }
        keep_system_only(packet);
        proof {
            match crate::processors::first_system(old(packet).messages@) {
                Some(m) => {
                    lemma_first_system_is_system(old(packet).messages@);
                },
                None => {},
            }
        }
        let mut entries: Vec<(String, serde_json::Value)> = Vec::new();
        entries.push((String::from_str("chunked"), json_bool(true)));
        entries.push((String::from_str("chunk_count"), json_count(chunks.len() as u64)));
        entries.push((String::from_str("chunks"), crate::outside::json_list(listed)));
        entries.push((String::from_str("context_cleared"), json_bool(true)));
        packet.set_processor_state("ContentChunker", json_object(entries));
        proof {
            reveal_strlit("ContentChunker");
        }
    }
}

proof fn lemma_first_system_is_system(ms: Seq<ChatMessage>)
    ensures
        crate::processors::first_system(ms) matches Some(m) ==> m.is_system(),
    decreases ms.len(),
{
    if ms.len() > 0 {
        lemma_first_system_is_system(ms.drop_last());
    }
}

/// The chunker's retry policy: up to `MAX_ATTEMPTS` answers are read; a full
/// parse ends it, and between attempts the largest set of chunks that any
/// partial parse gave is kept.
#[derive(Debug)]
pub struct ChunkRetry {
    pub best: Vec<ContentChunk>,
    pub attempts: usize,
    pub succeeded: bool,
    pub last_error: Option<String>,
}

impl ChunkRetry {
    pub fn new() -> (r: ChunkRetry)
        ensures
            r.best@.len() == 0,
            r.attempts == 0,
            !r.succeeded,
            r.last_error is None,
    {
        ChunkRetry { best: Vec::new(), attempts: 0, succeeded: false, last_error: None }
    }

    /// Should the model be asked again?
    pub fn wants_more(&self) -> (r: bool)
        ensures
            r == (!self.succeeded && self.attempts < MAX_ATTEMPTS),
    {
        !self.succeeded && self.attempts < MAX_ATTEMPTS
    }

    /// Take in one answer of the model.
    pub fn record_response(&mut self, chunker: &ContentChunker, response: &str)
        requires
            old(self).attempts < MAX_ATTEMPTS,
        ensures
            final(self).attempts == old(self).attempts + 1,
            parsed_chunks(response@).len() > 0 ==> final(self).succeeded && chunk_texts(
                final(self).best@,
            ) == parsed_chunks(response@) && final(self).last_error is None,
            parsed_chunks(response@).len() == 0 ==> ({
                let partial = chunks_from(response@, 0);
                &&& final(self).succeeded == old(self).succeeded
                &&& final(self).last_error is Some
                &&& partial.len() > old(self).best@.len() ==> chunk_texts(final(self).best@)
                    == partial
                &&& partial.len() <= old(self).best@.len() ==> final(self).best == old(self).best
            }),
    {
        self.attempts = self.attempts + 1;
        match chunker.parse_chunks(response) {
            Ok(chunks) => {
                self.best = chunks;
                self.succeeded = true;
                self.last_error = None;
            },
            Err(e) => {
                let msg = match e {
                    ProcessorError::Internal(m) => m,
                    ProcessorError::Config(m) => m,
                    ProcessorError::Service(m) => m,
                    ProcessorError::Ai(m) => m,
                    ProcessorError::Memory(m) => m,
                };
                self.last_error = Some(msg);
                match chunker.try_partial_parse(response) {
                    Some(partial) => {
                        if partial.len() > self.best.len() {
                            self.best = partial;
                        }
                    },
                    None => {},
                }
            },
        }
    }

    /// Take in a failed call of the model.
    pub fn record_failure(&mut self, error: &str)
        requires
            old(self).attempts < MAX_ATTEMPTS,
        ensures
            final(self).attempts == old(self).attempts + 1,
            final(self).best == old(self).best,
            final(self).succeeded == old(self).succeeded,
            final(self).last_error matches Some(m) && m@ == "调用模型失败: "@ + error@,
    {
        self.attempts = self.attempts + 1;
        let mut msg = String::from_str("调用模型失败: ");
        msg.append(error);
        self.last_error = Some(msg);
    }

    /// The chunks kept, or the failure when there are none.
    pub fn finish(self) -> (r: Result<Vec<ContentChunk>, ProcessorError>)
        ensures
            r is Ok <==> self.best@.len() > 0,
            r matches Ok(cs) ==> cs == self.best,
    {
        if self.best.len() > 0 {
            return Ok(self.best);
        }
        let mut msg = String::from_str("切块失败，3次重试均未成功: ");
        match self.last_error {
            Some(e) => {
                msg.append(e.as_str());
            },
            None => {
                msg = String::from_str("切块失败，未能解析出任何内容");
            },
        }
        Err(ProcessorError::Internal(msg))
    }
}

} // verus!
