//! A manifest-driven installation engine: the decisions of an install run,
//! stated over plain values and proved.
//!
//! The modules hold, leaf first: text primitives, the path resolver, the
//! manifest model, the step primitives (block patching, JSON key paths,
//! base64 embedding), the backup and restore plans, and the orchestrator's
//! state machine. Nothing here touches the file system, the environment
//! or the clock: callers read, hand the library what they read, and write
//! what it returns.

pub mod text;
pub mod environment;
pub mod path;
pub mod json;
pub mod patch;
pub mod embed;
pub mod manifest;
pub mod backup;
pub mod install;
pub mod packaging;
