//! Verified core logic of a client library for the CodeMao community:
//! cloud-variable synchronisation, AI chat sessions, report moderation
//! helpers and small text utilities.

pub mod callbacks;
pub mod chat;
pub mod cloud;
pub mod cloud_session;
pub mod cloud_store;
pub mod cloudops;
pub mod coco;
pub mod compiler;
pub mod decoders;
pub mod deepseek;
pub mod details;
pub mod executer;
pub mod json;
pub mod pipeline;
pub mod registry;
pub mod retrieve;
pub mod search;
pub mod services;
pub mod terminal;
pub mod text;
pub mod types;
