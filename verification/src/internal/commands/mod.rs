pub mod branch;
pub mod brief;
pub mod bulk;
pub mod diff;
pub mod doctor;
pub mod hook;
pub mod ls;
pub mod migrate;
pub mod node;
pub mod node_bulk;
pub mod policy;
pub mod push;
pub mod revise;
pub mod shared;
pub mod shorthand_say;
pub mod shortlog;
pub mod show;
pub mod state;
pub mod status;
pub mod supersede;
pub mod thread_new;
pub mod verify;
pub mod visibility;
