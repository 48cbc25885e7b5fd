//! Verified core of the Edgeless boot-disk tool: version identifiers,
//! boot-disk discovery, configuration rules, hooks, kernels and plugins.
pub mod alpha;
pub mod bake;
pub mod bake_progress;
pub mod api;
pub mod bootdisk;
pub mod cli;
pub mod compatible_text;
pub mod config;
pub mod dependency;
pub mod error;
pub mod gui;
pub mod hook;
pub mod image_codec;
pub mod iso;
pub mod kernel;
pub mod kernel_journal;
pub mod loadscreen;
pub mod localboost;
pub mod localboost_lifecycle;
pub mod localboost_publish;
pub mod mount_points;
pub mod nespak;
pub mod path;
pub mod plugin;
pub mod plugin_load;
pub mod text;
pub mod version;
