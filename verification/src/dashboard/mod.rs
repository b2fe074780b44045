//! A dashboard of the agents that work for one parent thread.

pub mod app;
pub mod cli;
pub mod client;
pub mod model;
pub mod picker;
pub mod preview;
pub mod render;
