//! Session multiplexing and push brokering for agent child processes: JSON
//! routing between workspaces, the turn-start retry engine, and presence-gated
//! push delivery.
pub mod audio;
pub mod json;
pub mod launch;
pub mod path;
pub mod push;
pub mod retry;
pub mod routing;
pub mod session;
pub mod table;
pub mod text;
