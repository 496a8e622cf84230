//! Porta's policy logic: what a sandboxed run is allowed, how that is said to
//! the kernel, and how its refusals are read back.

pub mod text;
pub mod words;
pub mod preset;
pub mod denials;
pub mod why;
pub mod request;
pub mod ceilings;
pub mod unix_sockets;
pub mod covers;
pub mod instances;
pub mod host_process;
pub mod inspect;
pub mod landlock_policy;
pub mod landlock;
pub mod sandbox_check;
pub mod memory_ceiling;
pub mod recipes;
pub mod agent;
pub mod agent_mcp;
pub mod agent_loading;
pub mod journal;
pub mod runtime;
pub mod proxy;
pub mod proxy_egress;
pub mod proxy_audit;
pub mod json_text;
pub mod http_client;
pub mod snapshot;
pub mod sandbox_profile;
pub mod seccomp;
