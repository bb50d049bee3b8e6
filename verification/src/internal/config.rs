//! Repository paths and the per-clone local configuration.

use vstd::prelude::*;

use crate::text::{chars_of, string_of, push_str};

verus! {

/// `Path::join` of a relative path on Unix: a `/` goes between unless
/// the base is empty or already ends with one.
pub open spec fn join_path(base: Seq<char>, rel: Seq<char>) -> Seq<char> {
    if base.len() == 0 || base.last() == '/' {
        base + rel
    } else {
        base + "/"@ + rel
    }
}

/// Paths derived from a repository root.
pub struct RepoPaths {
    /// `.forum/`: shared configuration committed to the repository.
    pub dot_forum: String,
    /// `.git/forum/`: local-only runtime data.
    pub git_forum: String,
}

fn join_exec(base: &str, rel: &str) -> (r: String)
    ensures
        r@ == join_path(base@, rel@),
{
    let mut v = chars_of(base);
    if v.len() > 0 && v[v.len() - 1] != '/' {
        push_str(&mut v, "/");
    }
    push_str(&mut v, rel);
    string_of(v.as_slice())
}

impl RepoPaths {
    /// `root/.forum` and `root/.git/forum`.
    pub fn from_repo_root(root: &str) -> (r: Self)
        ensures
            r.dot_forum@ == join_path(root@, ".forum"@),
            r.git_forum@ == join_path(join_path(root@, ".git"@), "forum"@),
    {
        let g = join_exec(root, ".git");
        RepoPaths { dot_forum: join_exec(root, ".forum"), git_forum: join_exec(g.as_str(), "forum") }
    }
}

/// The local configuration of `.git/forum/local.toml`.
#[derive(Debug, Default)]
pub struct LocalConfig {
    pub default_actor: Option<String>,
}

} // verus!
