pub mod kv;
pub mod text;
pub mod json;
pub mod json_text;
pub mod store;
pub mod agents;
pub mod agent_service;
pub mod fsutil;
pub mod trae;
pub mod update;
pub mod version;
pub mod urlguard;
pub mod commands;
pub mod iplit;
pub mod toml_roundtrip;
