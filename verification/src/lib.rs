//! Verified core of the OpenResearch command-line tool.

pub mod jobs;
pub mod text;
pub mod supervise;
pub mod lit;
pub mod skills;
pub mod chat;
pub mod github;
pub mod demo;
pub mod linux_app;
pub mod oh_my_pi;
pub mod json;
pub mod transcript;
pub mod platform;
pub mod desktop;
pub mod tool_targets;
pub mod turns;
pub mod attribution;
pub mod agent;
pub mod stream;
pub mod queue;
pub mod omp_events;
