//! The server's decisions: admission, and each connection's protocol.
pub mod admission;
pub mod batch;
pub mod commands;
pub mod event_laws;
pub mod execute_laws;
pub mod laws;
pub mod lifecycle;
pub mod prepare_laws;
pub mod replay_buffer;
pub mod reply_laws;
pub mod session;
pub mod work;
