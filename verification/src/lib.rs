pub mod address;
pub mod agents;
pub mod assoc;
pub mod chatroom;
pub mod class_extender;
pub mod cli;
pub mod commit_flow;
pub mod db;
pub mod endpoints;
pub mod errors;
pub mod fetch;
pub mod folder;
pub mod import;
pub mod importer;
pub mod index;
pub mod invite;
pub mod json;
pub mod json_text;
pub mod numbers;
pub mod parse;
pub mod plugin;
pub mod plugin_loader;
pub mod query;
pub mod removal;
pub mod save;
pub mod search;
pub mod single_page;
pub mod text;
pub mod transaction;
pub mod urls;
pub mod values;
pub mod versioning;
pub mod web_sockets;
pub mod y_sync;
