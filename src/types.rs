//! Memory records and their source tags.
//!
//! Scores (relevance, confidence, importance, edge weights) are fixed-point
//! integers in millionths: `1_000_000` stands for 1.0. Timestamps are
//! milliseconds since the Unix epoch.

use vstd::prelude::*;
use crate::text::text_eq;

verus! {

/// 1.0 in the fixed-point scale of scores.
pub const SCORE_ONE: u32 = 1_000_000;

/// Where a thinking entry came from.
#[derive(Debug, Clone, Copy, PartialEq, Eq, Structural)]
pub enum ThinkingSource {
    UserAnalysis,
    MemoryRetrieval,
    ToolResult,
    SelfReflection,
}

/// Where a short-term memory came from.
#[derive(Debug, Clone, Copy, PartialEq, Eq, Structural)]
pub enum MemorySource {
    LongTermRetrieval,
    CurrentConversation,
    ToolResult,
}

pub open spec fn thinking_source_of(s: Seq<char>) -> ThinkingSource {
    if s == "MemoryRetrieval"@ {
        ThinkingSource::MemoryRetrieval
    } else if s == "ToolResult"@ {
        ThinkingSource::ToolResult
    } else if s == "SelfReflection"@ {
        ThinkingSource::SelfReflection
    } else {
        ThinkingSource::UserAnalysis
    }
}

pub open spec fn memory_source_of(s: Seq<char>) -> MemorySource {
    if s == "LongTermRetrieval"@ {
        MemorySource::LongTermRetrieval
    } else if s == "ToolResult"@ {
        MemorySource::ToolResult
    } else {
        MemorySource::CurrentConversation
    }
}

/// The tag named by `s`; an unknown name gives `UserAnalysis`.
pub fn parse_thinking_source(s: &str) -> (r: ThinkingSource)
    ensures
        r == thinking_source_of(s@),
{
    if text_eq(s, "MemoryRetrieval") {
        ThinkingSource::MemoryRetrieval
    } else if text_eq(s, "ToolResult") {
        ThinkingSource::ToolResult
    } else if text_eq(s, "SelfReflection") {
        ThinkingSource::SelfReflection
    } else {
        ThinkingSource::UserAnalysis
    }
}

/// The tag named by `s`; an unknown name gives `CurrentConversation`.
pub fn parse_memory_source(s: &str) -> (r: MemorySource)
    ensures
        r == memory_source_of(s@),
{
    if text_eq(s, "LongTermRetrieval") {
        MemorySource::LongTermRetrieval
    } else if text_eq(s, "ToolResult") {
        MemorySource::ToolResult
    } else {
        MemorySource::CurrentConversation
    }
}

pub open spec fn memory_source_name(s: MemorySource) -> Seq<char> {
    match s {
        MemorySource::LongTermRetrieval => "LongTermRetrieval"@,
        MemorySource::CurrentConversation => "CurrentConversation"@,
        MemorySource::ToolResult => "ToolResult"@,
    }
}

impl MemorySource {
    /// The wire name of the tag.
    pub fn name(&self) -> (r: String)
        ensures
            r@ == memory_source_name(*self),
    {
        match self {
            MemorySource::LongTermRetrieval => String::from_str("LongTermRetrieval"),
            MemorySource::CurrentConversation => String::from_str("CurrentConversation"),
            MemorySource::ToolResult => String::from_str("ToolResult"),
        }
    }
}

/// One entry of the short-term memory pool.
#[derive(Debug, Clone)]
pub struct ShortTermMemory {
    pub id: String,
    pub summary: String,
    pub content: String,
    /// fact, event, preference, knowledge, task or other.
    pub memory_type: String,
    pub should_expand: bool,
    /// In millionths, at most `SCORE_ONE`.
    pub relevance: u32,
    /// In millionths, at most `SCORE_ONE`.
    pub confidence: u32,
    pub source: MemorySource,
    /// Milliseconds since the Unix epoch.
    pub timestamp: i64,
}

impl ShortTermMemory {
    pub fn duplicate(&self) -> (r: ShortTermMemory)
        ensures
            r == *self,
    {
        ShortTermMemory {
            id: self.id.clone(),
            summary: self.summary.clone(),
            content: self.content.clone(),
            memory_type: self.memory_type.clone(),
            should_expand: self.should_expand,
            relevance: self.relevance,
            confidence: self.confidence,
            source: self.source,
            timestamp: self.timestamp,
        }
    }
}

/// A file that an extracted memory refers to by a local id.
#[derive(Debug, Clone)]
pub struct RawFileRef {
    pub local_id: String,
    pub file_type: String,
    pub content: String,
    pub language: Option<String>,
}

/// A memory extracted from a conversation, waiting for promotion to long-term.
#[derive(Debug, Clone)]
pub struct PendingMemory {
    pub content: String,
    pub category: String,
    /// In millionths.
    pub importance: u32,
    pub source_session: String,
    /// Milliseconds since the Unix epoch.
    pub created_at: i64,
}

} // verus!
