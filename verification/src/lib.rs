//! Local discovery and activation of MCP servers: the card format, canonical hashing of what a
//! card launches, the consent store, the derived catalog, and the broker's activation engine.

pub mod activation;
pub mod audit;
pub mod canonical;
pub mod catalog;
pub mod cli;
pub mod consent;
pub mod consent_ui;
pub mod dirs;
pub mod card;
pub mod env;
pub mod expand;
pub mod hash;
pub mod install;
pub mod json;
pub mod prompt;
pub mod rpc;
pub mod security;
pub mod server;
pub mod signature;
pub mod text;

