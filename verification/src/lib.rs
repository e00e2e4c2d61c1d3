//! The core of a presence tracker: paths into the metadata of a process,
//! conditional patterns, the resolution of declared fields, the registry of
//! shared monitors, the life cycle of sessions and the decisions of their
//! polling loops. Beside it, the rules of the workspace's dependency
//! checker.

pub mod text;
pub mod tree;
pub mod path;
pub mod decimal;
pub mod pattern;
pub mod resolver;
pub mod monitors;
pub mod sessions;
pub mod scheduler;
pub mod manager;
pub mod documents;
pub mod versions;
pub mod console;
pub mod manifest;
