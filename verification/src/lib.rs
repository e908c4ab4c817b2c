//! Commit-handling core of a Wayland compositor.
//!
//! Every client commit funnels through [`dispatch::State::commit`], which
//! coordinates four smaller machines: the initial-configure handshake per
//! surface role, cross-node GPU buffer import, screencopy session
//! scheduling at window and workspace granularity, and per-output render
//! scheduling. The shell, backend and protocol layers around this core are
//! represented by plain data (arena indices and queues) and by the effect
//! records the dispatcher returns; an embedder performs those effects in
//! the order the records prescribe.

pub mod types;
pub mod screencopy;
pub mod import;
pub mod render;
pub mod shell;
pub mod dispatch;
pub mod laws;
