//! Verified core of a Zellij sidebar that lists LLM agents reported over plugin pipes.
//!
//! The modules hold the plugin's logic as plain data transformations: configuration
//! parsing, the agent and session database, the render model, click hitboxes, text
//! layout helpers, colour filters, timers and pane-size synchronisation.

pub mod text;
pub mod text_map;
pub mod config;
pub mod json;
pub mod runtime;
pub mod model;
pub mod click;
pub mod layout;
pub mod timer;
pub mod sessions;
pub mod polls;
pub mod filters;
pub mod pane_size;
pub mod plugin;
pub mod template;
pub mod pi_sessions;
pub mod button;
pub mod plugin_step;
pub mod grid_fit;
pub mod laws;
