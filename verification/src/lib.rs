//! workplacesim: the verified core of a visualizer of coding-agent activity.

pub mod config;
pub mod render;
pub mod server;
pub mod state;
pub mod text;
pub mod stats;
