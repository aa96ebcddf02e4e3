//! Verified decision logic of the cosmix desktop and mail suite.

pub mod text;

pub mod smtp_addr;
pub mod smtp_auth;
pub mod smtp_client;
pub mod smtp_session;
pub mod delivery;
pub mod inbound;
pub mod bounce;
pub mod blob;

pub mod jmap_types;
pub mod jmap_set;
pub mod changes;
pub mod sql;

pub mod mail;

pub mod hub;
pub mod menu;
pub mod ui;
pub mod script;
pub mod executor;
pub mod desktop;
pub mod files;
pub mod logs;
pub mod format;
