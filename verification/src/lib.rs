//! Verified core of the A2App harness and host: the shared agent document,
//! the rules by which the harness and the host read and write it, and the
//! text handling of the splash runtime.
pub mod text;
pub mod doc;
pub mod bridge;
pub mod host;
pub mod splash;
pub mod state;
pub mod router;
pub mod apps;
pub mod laws;
