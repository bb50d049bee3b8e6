pub mod actor;
pub mod clock;
pub mod commands;
pub mod config;
pub mod diff;
pub mod doctor;
pub mod editor;
pub mod error;
pub mod event;
pub mod evidence;
pub mod git_batch;
pub mod git_ops;
pub mod id;
pub mod github;
pub mod github_export;
pub mod github_import;
pub mod help;
pub mod hook;
pub mod id_alloc;
pub mod index;
pub mod node;
pub mod policy;
pub mod snapshot;
pub mod thread;
pub mod toml_doc;
