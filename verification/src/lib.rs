use vstd::prelude::*;

pub mod config;
pub mod control;
pub mod daemon;
pub mod deps;
pub mod detect;
pub mod events;
pub mod git;
pub mod infra;
pub mod init;
pub mod orchestrator;
pub mod order;
pub mod ports;
pub mod process;
pub mod project;
pub mod proxy;
pub mod strmap;
pub mod text;
pub mod tls;
pub mod tui;
pub mod watcher;
