//! One module per agent, and what the agents have in common.

pub mod antigravity;
pub mod copilot_vscode;
pub mod cursor;
pub mod proto;
pub mod shared;
