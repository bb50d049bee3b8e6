//! Participants and how the acting participant's ID is chosen.

use vstd::prelude::*;

use crate::internal::git_ops::{lowercase_text, str_to_lowercase};
use crate::text::{append_chars, chars_of, replace_char, replace_char_exec, string_of};

verus! {

#[derive(Debug, Clone, PartialEq, Eq, Structural)]
pub enum ActorKind {
    Human,
    Ai,
}

/// A participant in a forum discussion: human or AI.
#[derive(Debug, Clone)]
pub struct Actor {
    pub actor_id: String,
    pub kind: ActorKind,
    pub display_name: String,
    pub roles: Vec<String>,
    pub policy_profile: Option<String>,
    pub key_id: Option<String>,
}

/// The actor ID for a git `user.name`: `human/` and the name lowercased
/// with spaces turned into hyphens.
pub open spec fn human_actor_id(name: Seq<char>) -> Seq<char> {
    "human/"@ + replace_char(lowercase_text(name), ' ', '-')
}

/// The acting participant: a non-empty `GIT_FORUM_ACTOR`, else the actor
/// ID of a non-empty git `user.name`, else `human/user`.
pub open spec fn chosen_actor(env_actor: Option<Seq<char>>, git_user_name: Option<Seq<char>>) -> Seq<char> {
    match env_actor {
        Some(a) if a.len() > 0 => a,
        _ => match git_user_name {
            Some(n) if n.len() > 0 => human_actor_id(n),
            _ => "human/user"@,
        },
    }
}

pub open spec fn opt_view(o: Option<String>) -> Option<Seq<char>> {
    match o {
        Some(s) => Some(s@),
        None => None,
    }
}

/// Resolve the current actor ID from the value of `GIT_FORUM_ACTOR` and
/// the output of `git config user.name` (each `None` when unset or when
/// reading it failed).
pub fn current_actor_from(env_actor: Option<String>, git_user_name: Option<String>) -> (r: String)
    ensures
        r@ == chosen_actor(opt_view(env_actor), opt_view(git_user_name)),
{
    if let Some(a) = env_actor {
        if !a.as_str().is_empty() {
            return a;
        }
    }
    match git_user_name {
        Some(n) => {
            if n.as_str().is_empty() {
                crate::text::string_from("human/user")
            } else {
                let lower = str_to_lowercase(n.as_str());
                let lc = chars_of(lower.as_str());
                let slug = replace_char_exec(lc.as_slice(), ' ', '-');
                let mut v = chars_of("human/");
                append_chars(&mut v, slug.as_slice());
                string_of(v.as_slice())
            }
        },
        None => crate::text::string_from("human/user"),
    }
}

} // verus!
