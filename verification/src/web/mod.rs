//! The web interface: who may use it, and what it answers.

pub mod api;
pub mod auth;
pub mod handlers;
pub mod manager;
pub mod middleware;
