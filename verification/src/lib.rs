//! The decisions of a fleet agent: which requests are safe to act on, which
//! commands are run for them, and how the answers are read back.

use vstd::prelude::*;

pub mod agent;
pub mod apt;
pub mod argv;
pub mod backup;
pub mod backup_run;
pub mod config;
pub mod deploy;
pub mod docker;
pub mod docker_lists;
pub mod exec;
pub mod health;
pub mod journal;
pub mod journal_stream;
pub mod json;
pub mod k8s_exec;
pub mod k8s_logs;
pub mod logs;
pub mod output;
pub mod paths;
pub mod privileged;
pub mod prune;
pub mod registry;
pub mod streams;
pub mod systemd;
pub mod terminal;
pub mod text;

verus! {

}
