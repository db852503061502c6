//! Live synchronisation of a project directory with an instance tree.
//!
//! The crate holds the pure core of the synchronisation pipeline: a lexical
//! path model, a path-keyed map with subtree removal, instance metadata,
//! snapshots and the middlewares that produce them, the instance tree with
//! its path index, the patch engine, and the cursor-based message queue.
//! The functions are stated over mathematical models and proved against
//! them; the few calls into outside code say so where they stand.

pub mod path;
pub mod path_map;
pub mod value;
pub mod project;
pub mod metadata;
pub mod snapshot;
pub mod instance;
pub mod patch;
pub mod diff;
pub mod update;
pub mod ids;
pub mod path_index;
pub mod tree;
pub mod reconcile;
pub mod json_model;
pub mod meta_file;
pub mod imfs;
pub mod snapshot_error;
pub mod file_snapshot;
pub mod snapshot_middleware;
pub mod message_queue;
pub mod localization;
pub mod init;
pub mod numbers;
pub mod web;
pub mod change_processor;
pub mod round_trip;
pub mod ignore_unknown;
pub mod locality;
pub mod aligned;
pub mod phases;
pub mod within;
pub mod session;
pub mod watch;
