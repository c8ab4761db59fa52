//! The verified core of rail2ban, a log-watching intrusion blocker.

pub mod action;
pub mod backend;
pub mod config;
pub mod error;
pub mod filter;
pub mod ip;
pub mod notation;
pub mod protocol;
pub mod server;
pub mod table;
pub mod text;
pub mod time;
pub mod web;
