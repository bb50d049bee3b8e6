//! git-forum: discussion threads stored as Git refs.
pub mod internal;
pub mod text;
