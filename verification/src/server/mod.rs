//! The daemon's state and rules: failures, bans, jails and commands.

pub mod assembly;
pub mod banmanager;
pub mod bans;
pub mod bantime;
pub mod commands;
pub mod database;
pub mod failmanager;
pub mod ignorecache;
pub mod invariants;
pub mod jail;
pub mod jobs;
pub mod orders;
pub mod server;
pub mod status;
