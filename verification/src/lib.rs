//! Bridges chat platforms and coding agents.

pub mod agent;
pub mod bytes;
pub mod chunks;
pub mod clock;
pub mod commands;
pub mod config;
pub mod control;
pub mod discord;
pub mod dispatch;
pub mod engine;
pub mod events;
pub mod feishu;
pub mod intake;
pub mod json;
pub mod message;
pub mod platform;
pub mod rest;
pub mod routing;
pub mod session;
pub mod table;
pub mod telegram;
pub mod text;
pub mod text_format;
pub mod tmux;
pub mod turn;
pub mod work;
