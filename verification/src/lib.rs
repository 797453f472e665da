//! Verified core of a read-only terminal client for Adapt.

pub mod adapt_client;
pub mod auth;
pub mod chat_terminal;
pub mod commands;
pub mod config;
pub mod conversation_controller;
pub mod file_references;
pub mod json;
pub mod message_writer;
pub mod path;
pub mod redaction;
pub mod session_history;
pub mod terminal;
pub mod text;
pub mod transcript;
pub mod update_checker;
