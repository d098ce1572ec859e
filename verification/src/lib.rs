//! Reads the session stores of coding agents and prepares sessions for resuming.

pub mod adapters;
pub mod cli;
pub mod config;
pub mod json;
pub mod model;
pub mod numbers;
pub mod paths;
pub mod percent;
pub mod resume;
pub mod string_map;
pub mod text;
pub mod time;
pub mod urls;
pub mod windows;
