//! Verified core of a plugin-hosting socket server: plugin versioning,
//! dependency ordering, lifecycle rules, marketplace search and the
//! messaging, identity, jobs and end-to-end encryption building blocks.
pub mod text;
pub mod version;
pub mod dependency_graph;
pub mod lifecycle;
pub mod signature;
pub mod events;
pub mod db_schema;
pub mod http_api;
pub mod crypto;
pub mod ratchet;
pub mod session;
pub mod e2ee_manager;
pub mod marketplace;
pub mod host_types;
pub mod messaging_types;
pub mod identity;
pub mod jobs;
pub mod mfa;
pub mod state_persistence;
pub mod search;
pub mod offline_queue;
pub mod channel;
pub mod keyed;
pub mod moderation;
pub mod routes;
pub mod permissions;
pub mod store;
pub mod registry;
pub mod presence;
pub mod typing;
pub mod receipts;
pub mod files;
pub mod delivery;
pub mod messaging_api;
pub mod marketplace_registry;
pub mod update_checker;
pub mod session_store;
pub mod credentials;
pub mod identity_manager;
pub mod plugin_manifest;
pub mod package;
pub mod ws_auth;
pub mod dependency_resolution;
pub mod storage;
pub mod dir_watch;
pub mod marketplace_client;
pub mod catalogue;
