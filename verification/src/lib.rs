//! A verified core for a peer-to-peer encrypted backup system: the packfile format, the
//! blob index, directory tree splitting, storage obfuscation and the decision logic that
//! drives backups, restores and storage matching.

pub mod types;
pub mod keyed;
pub mod obfuscation;
pub mod encoding;
pub mod blob;
pub mod formats;
pub mod crypto;
pub mod hash_order;
pub mod key_manager;
pub mod text;
pub mod blob_index;
pub mod defaults;
pub mod packfile;
pub mod tree;
pub mod dir_packer;
pub mod file_utils;
pub mod orchestrator;
pub mod server;
pub mod auth;
pub mod transport;
pub mod connection_requests;
pub mod config;
pub mod ui;
pub mod net;
