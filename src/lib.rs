//! Verified core of a stdio tool server that drives an external GDScript
//! formatter/linter: message framing, target-file resolution, parsing of the
//! tool's text output, and the binary acquisition decisions.

pub mod text;
pub mod format;
pub mod lint;
pub mod targets;
pub mod binary;
pub mod framing;
pub mod dispatch;
pub mod arguments;
