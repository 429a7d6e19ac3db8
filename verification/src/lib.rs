//! Path, shell, chat and RPC-parameter rules for the Tabularium document store.

pub mod text;
pub mod paths;
pub mod shell_path;
pub mod commands;
pub mod chat;
pub mod listing;
pub mod shell;
pub mod config;
pub mod web;
pub mod json;
pub mod preview;
pub mod numbers;
pub mod rpc;
pub mod ls;
pub mod highlight;
pub mod completion;
pub mod logline;
pub mod wsdoc;
pub mod chat_session;
pub mod transfer;
pub mod table;
pub mod order;
pub mod wildcard;
pub mod grep;
pub mod claims;
pub mod mcp;
pub mod moves;
pub mod find;
pub mod output;
