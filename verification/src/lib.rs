//! Verified core of a configuration-profile manager.
//!
//! The library keeps named configuration profiles for several external
//! command-line tools and projects ("applies") a profile onto the live
//! configuration files those tools read, merging with foreign content and
//! rolling back on partial failure.  All decision logic is verified; the
//! surrounding process performs the actual file reads and writes.

pub mod codex;
pub mod err;
pub mod ids;
pub mod json;
pub mod merge;
pub mod openclaw;
pub mod opencode;
pub mod order;
pub mod paths;
pub mod text;
pub mod trusted;
pub mod writer;
