//! Room-code ("车牌") pickup for group chats: recognising codes in messages,
//! computing the new group name, per-group cooldown and permissions,
//! rename statistics, configuration and the decisions of the bot engine.
pub mod text;
pub mod matcher;
pub mod permission;
pub mod rename;
pub mod cooldown;
pub mod utils;
pub mod paths;
pub mod stats;
pub mod config;
pub mod help;
pub mod engine;
pub mod onebot;
pub mod webui;
