//! Conversation memory middleware core: the conversation packet, the
//! processor pipeline and its built-in processors, and the relation graph.

pub mod outside;
pub mod text;
pub mod message;
pub mod types;
pub mod pending;
pub mod longterm;
pub mod packet;
pub mod merge;
pub mod turn;
pub mod graph;
pub mod temporal;
pub mod graph_views;
pub mod locator;
pub mod query;
pub mod multi;
pub mod thinking;
pub mod processors;
pub mod chunker;
pub mod pipeline;
pub mod config;
pub mod storage;
pub mod vectorizer;
pub mod packet_storage;
