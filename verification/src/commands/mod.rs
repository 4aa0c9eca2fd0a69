//! The decisions behind the `create`, `list` and `search` commands; the
//! file-system work itself is done by the caller.

pub mod create;
pub mod list;
pub mod report;
pub mod search;
