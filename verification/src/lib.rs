//! Decision logic of the Coast daemon's request handlers.
pub mod builds;
pub mod coast_image;
pub mod compose;
pub mod compose_rewrite;
pub mod json;
pub mod lifecycle;
pub mod remote;
pub mod remotes;
pub mod mcp;
pub mod paths;
pub mod ports;
pub mod ps;
pub mod routing;
pub mod secrets;
pub mod shell;
pub mod status;
pub mod text;
pub mod worktree;
pub mod yaml;
