//! A personal task-tracking core: a task lifecycle state machine, a
//! line-oriented record codec, and a pluggable persistence abstraction
//! with a file-based, per-status partitioned backend.
//!
//! Everything that decides or computes lives here, verified; the
//! surrounding application only moves bytes between this library and
//! the outside world.

pub mod codec;
pub mod deadline;
pub mod id;
pub mod registry;
pub mod task;
pub mod text;
