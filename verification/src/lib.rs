//! Core logic for managing the lifecycle state of non-removable system
//! packages on a connected device: a version-aware transition-command
//! builder, a backup snapshot store with a canonical text codec, and a
//! restore reconciler that diffs a snapshot against live device state.

pub mod builder;
pub mod caps;
pub mod codec;
pub mod settings;
pub mod state;
pub mod store;
