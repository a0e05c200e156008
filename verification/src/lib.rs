//! The logic of a gateway between a game server and an external log panel.
//!
//! The game server posts a log and gets an answer at once; the gateway queues
//! the log, forwards it to the panel, retries whatever fails, and keeps a
//! configurable set of paths in local files instead.
//!
//! The library decides and formats; it does no I/O. Work that alternates I/O
//! and decisions (a delivery, the first login, the retry queue) is a state
//! machine: the state says what to do next, and a method takes what came of
//! it.
//!
//! - [`config`]: settings from variables, target URLs
//! - [`intake`]: what happens to a log that arrives
//! - [`forward`]: one delivery with its retry on `401`, the live queue
//! - [`auth`]: login response, backoff, token refresh
//! - [`failed_log`]: the file of failed logs, written and read
//! - [`retry`]: the retry queue and its rounds
//! - [`local`]: logs that stay on the machine
//! - [`status`], [`json`], [`text`]: what the others are built on

pub mod auth;
pub mod config;
pub mod failed_log;
pub mod forward;
pub mod intake;
pub mod json;
pub mod local;
pub mod retry;
pub mod status;
pub mod text;
