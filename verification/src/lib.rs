//! Interactive session engine for a line-edited chat service: a per-connection
//! terminal input state machine, a per-identity chat context manager, a
//! connection registry, and the flat-file formats that persist conversational
//! memory.

pub mod auth;
pub mod chat;
pub mod clock;
pub mod llm;
pub mod logger;
pub mod registry;
pub mod summary;
pub mod terminal;
pub mod text;
pub mod transcript;

use vstd::prelude::*;

verus! {

/// Resolved configuration values the session engine consumes.
pub struct Config {
    pub port: u16,
    pub api_base_url: String,
    pub model: String,
    pub api_key: Option<String>,
    pub system_prompt: String,
    pub logs_dir: String,
    pub host_key_path: Option<String>,
}

} // verus!
