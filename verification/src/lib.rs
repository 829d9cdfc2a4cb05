//! Depth-bounded branch-and-bound search for the best crafting rotation.
//!
//! The search explores sequences of crafting actions ("rotations") up to a
//! fixed depth, asking an external crafting engine which actions are legal
//! and what state each action leads to, and keeps the rotation whose final
//! state scores best: highest capped quality first, fewest steps second.

pub mod engine;
pub mod levels;
pub mod score;
pub mod search;

pub use engine::default_catalog;
pub use engine::new_status;
pub use levels::rlv_to_job_level;
pub use score::Score;
pub use search::dfs_search;
pub use search::try_dfs_search;
