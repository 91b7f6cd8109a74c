//! Verified core of a Roblox project synchronisation tool: file-name
//! encoding, reference paths and their index, the decisions of two-way
//! sync, small text formats, git metadata, assignment solving, and the
//! choices behind the command line's commands.

pub mod text;
pub mod fs_path;
pub mod path_encoding;
pub mod rojo_ref;
pub mod ref_index;
pub mod suppression;
pub mod change_processor;
pub mod vfs;
pub mod hungarian;
pub mod matching;
pub mod json;
pub mod logging;
pub mod cli;
pub mod clone;
pub mod git;
pub mod roblox_api;
pub mod upload;
pub mod live_syncback;
pub mod sourcemap;
pub mod serve_session;
