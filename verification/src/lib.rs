//! Keeping the files of an enclave in step with those of its host.

pub mod actions;
pub mod changeset;
pub mod clock;
pub mod disk;
pub mod enclave_course;
pub mod environment;
pub mod feasible;
pub mod file_sync;
pub mod files;
pub mod host_course;
pub mod json_transport;
pub mod messages;
pub mod outcome;
pub mod paths;
pub mod placement;
pub mod sender;
pub mod server_course;
pub mod service;
pub mod sizes;
pub mod table;
pub mod text;
pub mod transfer;
pub mod watcher;
