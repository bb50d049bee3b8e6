//! Error values and the CLI diagnostic block.

use vstd::prelude::*;

use crate::text::{chars_of, string_of, append_chars};

verus! {

/// Top-level error type for git-forum. Errors that carried an outside
/// error value (I/O, JSON, TOML) carry its rendered message here.
#[derive(Debug, Clone, PartialEq, Eq)]
pub enum ForumError {
    Repo(String),
    Config(String),
    Policy(String),
    StateMachine(String),
    /// state transition not allowed for thread's lifecycle.
    LifecycleStateMismatch(String),
    /// facet mutation in a state that doesn't allow it.
    FacetTransitionDisallowed(String),
    /// tag string violates the grammar.
    InvalidTagSyntax(String),
    Git(String),
    Io(String),
    Json(String),
    /// thread ref tip lacks `thread.toml`.
    SnapshotMissing(String),
    /// `schema_version` is absent or unsupported.
    SnapshotSchemaUnsupported(String),
    /// snapshot fields fail schema or grammar checks.
    SnapshotInvalid(String),
    /// 3.0 command sees an unmigrated 1.x/2.x event chain.
    LegacyEventChain,
    /// concurrent create or stale-parent CAS conflict.
    SnapshotWriteConflict(String),
    Toml(String),
}

/// Result alias used throughout the crate.
pub type ForumResult<T> = Result<T, ForumError>;

/// The user-facing text of an error (`<label>: <detail>`).
pub open spec fn forum_error_text(e: ForumError) -> Seq<char> {
    match e {
        ForumError::Repo(s) => "repository error: "@ + s@,
        ForumError::Config(s) => "config error: "@ + s@,
        ForumError::Policy(s) => "policy error: "@ + s@,
        ForumError::StateMachine(s) => "state machine error: "@ + s@,
        ForumError::LifecycleStateMismatch(s) => "lifecycle state mismatch: "@ + s@,
        ForumError::FacetTransitionDisallowed(s) => "facet transition disallowed: "@ + s@,
        ForumError::InvalidTagSyntax(s) => "invalid tag syntax: "@ + s@,
        ForumError::Git(s) => "git error: "@ + s@,
        ForumError::Io(s) => "io error: "@ + s@,
        ForumError::Json(s) => "json error: "@ + s@,
        ForumError::SnapshotMissing(s) => "snapshot missing: "@ + s@,
        ForumError::SnapshotSchemaUnsupported(s) => "snapshot schema unsupported: "@ + s@,
        ForumError::SnapshotInvalid(s) => "snapshot invalid: "@ + s@,
        ForumError::LegacyEventChain => "legacy event chain at thread ref; run `git forum migrate`"@,
        ForumError::SnapshotWriteConflict(s) => "snapshot write conflict: "@ + s@,
        ForumError::Toml(s) => "toml error: "@ + s@,
    }
}

fn labelled(label: &str, detail: &String) -> (r: String)
    ensures
        r@ == label@ + detail@,
{
    let mut v = chars_of(label);
    let d = chars_of(detail.as_str());
    append_chars(&mut v, d.as_slice());
    string_of(v.as_slice())
}

impl ForumError {
    /// The error's display text.
    pub fn message(&self) -> (r: String)
        ensures
            r@ == forum_error_text(*self),
    {
        match self {
            ForumError::Repo(s) => labelled("repository error: ", s),
            ForumError::Config(s) => labelled("config error: ", s),
            ForumError::Policy(s) => labelled("policy error: ", s),
            ForumError::StateMachine(s) => labelled("state machine error: ", s),
            ForumError::LifecycleStateMismatch(s) => labelled("lifecycle state mismatch: ", s),
            ForumError::FacetTransitionDisallowed(s) => labelled("facet transition disallowed: ", s),
            ForumError::InvalidTagSyntax(s) => labelled("invalid tag syntax: ", s),
            ForumError::Git(s) => labelled("git error: ", s),
            ForumError::Io(s) => labelled("io error: ", s),
            ForumError::Json(s) => labelled("json error: ", s),
            ForumError::SnapshotMissing(s) => labelled("snapshot missing: ", s),
            ForumError::SnapshotSchemaUnsupported(s) => labelled("snapshot schema unsupported: ", s),
            ForumError::SnapshotInvalid(s) => labelled("snapshot invalid: ", s),
            ForumError::LegacyEventChain => {
                let v = chars_of("legacy event chain at thread ref; run `git forum migrate`");
                string_of(v.as_slice())
            },
            ForumError::SnapshotWriteConflict(s) => labelled("snapshot write conflict: ", s),
            ForumError::Toml(s) => labelled("toml error: ", s),
        }
    }
}

/// Structured detail returned to the user on CLI failure: what went
/// wrong, which rule was violated, and how to fix it.
pub struct CliDiagnostic {
    pub reason: String,
    pub violated_rule: Option<String>,
    pub hint: Option<String>,
}

/// `prefix` followed by the text, or nothing.
pub open spec fn optional_line(prefix: Seq<char>, o: Option<String>) -> Seq<char> {
    match o {
        Some(x) => prefix + x@,
        None => Seq::<char>::empty(),
    }
}

pub open spec fn diagnostic_text(d: CliDiagnostic) -> Seq<char> {
    "error: "@ + d.reason@ + optional_line("\n  violated: "@, d.violated_rule)
        + optional_line("\n  hint: "@, d.hint)
}

impl CliDiagnostic {
    /// The diagnostic's display text.
    pub fn to_string(&self) -> (r: String)
        ensures
            r@ == diagnostic_text(*self),
    {
        let mut v = chars_of("error: ");
        let reason = chars_of(self.reason.as_str());
        append_chars(&mut v, reason.as_slice());
        let ghost after_reason = v@;
        match &self.violated_rule {
            Some(rule) => {
                let a = chars_of("\n  violated: ");
                append_chars(&mut v, a.as_slice());
                let b = chars_of(rule.as_str());
                append_chars(&mut v, b.as_slice());
            },
            None => {},
        }
        let ghost after_rule = v@;
        match &self.hint {
            Some(hint) => {
                let a = chars_of("\n  hint: ");
                append_chars(&mut v, a.as_slice());
                let b = chars_of(hint.as_str());
                append_chars(&mut v, b.as_slice());
            },
            None => {},
        }
        proof {
            assert(after_rule =~= after_reason + optional_line("\n  violated: "@, self.violated_rule));
            assert(v@ =~= after_rule + optional_line("\n  hint: "@, self.hint));
        }
        string_of(v.as_slice())
    }
}

} // verus!
