//! Coordination logic for a fleet of coding agents.

pub mod agent;
pub mod built_in_roles;
pub mod clock;
pub mod communication;
pub mod control;
pub mod daemon;
pub mod dashboard;
pub mod desktop;
pub mod hooks;
pub mod json;
pub mod live_agents;
pub mod marketplaces;
pub mod message_tool;
pub mod notice;
pub mod notices;
pub mod path_style;
pub mod paths;
pub mod process_group;
pub mod skills_cwd;
pub mod sort;
pub mod spawn_record;
pub mod styled;
pub mod tasks;
pub mod text;
pub mod tree;
pub mod version;
pub mod wait_call;
pub mod wait_tool;
pub mod wake;
pub mod watch;
pub mod wrapping;
