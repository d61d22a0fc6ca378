//! Glass: the rules of a personal-assistant daemon that answers direct messages
//! by running an agent, keeps a schedule of prompts, and records what happened.
//!
//! This library holds the decisions, parsers and text formats. The daemon around
//! it performs the I/O that these functions ask for.

pub mod bus;
pub mod chunk;
pub mod cli;
pub mod compaction;
pub mod config;
pub mod cron;
pub mod cron_poll;
pub mod cron_view;
pub mod cron_when;
pub mod discord;
pub mod dm_log;
pub mod events;
pub mod failure;
pub mod ids;
pub mod invocation_log;
pub mod json;
pub mod jsonl;
pub mod loom;
pub mod memory;
pub mod mcp;
pub mod models;
pub mod orchestrator_socket;
pub mod paths;
pub mod pi;
pub mod poller;
pub mod promises;
pub mod spike;
pub mod spike_setup;
pub mod state;
pub mod text;
pub mod time;
pub mod transcript;
pub mod turn;
