//! Workspace navigation for a tiling compositor: the ladder of candidate
//! workspace identifiers, the snapshot of the compositor's workspaces, and the
//! commands that a change of workspace issues.

pub mod ladder;
pub mod navigator;
pub mod special;
pub mod state;
