//! Evidence references attached to threads.

use vstd::prelude::*;

use crate::text::{str_eq, string_from, chars_of, string_of, push_str, clone_opt_string};

verus! {

/// Supported evidence kinds.
#[derive(Debug, Clone, Copy, PartialEq, Eq, Structural)]
pub enum EvidenceKind {
    Commit,
    File,
    Hunk,
    Test,
    Benchmark,
    Doc,
    Thread,
    External,
}

pub open spec fn evidence_kind_name(k: EvidenceKind) -> Seq<char> {
    match k {
        EvidenceKind::Commit => "commit"@,
        EvidenceKind::File => "file"@,
        EvidenceKind::Hunk => "hunk"@,
        EvidenceKind::Test => "test"@,
        EvidenceKind::Benchmark => "benchmark"@,
        EvidenceKind::Doc => "doc"@,
        EvidenceKind::Thread => "thread"@,
        EvidenceKind::External => "external"@,
    }
}

pub open spec fn evidence_kind_from_name(s: Seq<char>) -> Option<EvidenceKind> {
    if s == "commit"@ {
        Some(EvidenceKind::Commit)
    } else if s == "file"@ {
        Some(EvidenceKind::File)
    } else if s == "hunk"@ {
        Some(EvidenceKind::Hunk)
    } else if s == "test"@ {
        Some(EvidenceKind::Test)
    } else if s == "benchmark"@ {
        Some(EvidenceKind::Benchmark)
    } else if s == "doc"@ {
        Some(EvidenceKind::Doc)
    } else if s == "thread"@ {
        Some(EvidenceKind::Thread)
    } else if s == "external"@ {
        Some(EvidenceKind::External)
    } else {
        None
    }
}

/// The message of a failed evidence-kind parse.
pub open spec fn evidence_kind_parse_error(s: Seq<char>) -> Seq<char> {
    "unknown evidence kind '"@ + s
        + "'; valid: commit, file, hunk, test, benchmark, doc, thread, external"@
}

impl EvidenceKind {
    pub fn as_str(self) -> (r: &'static str)
        ensures
            r@ == evidence_kind_name(self),
    {
        match self {
            EvidenceKind::Commit => "commit",
            EvidenceKind::File => "file",
            EvidenceKind::Hunk => "hunk",
            EvidenceKind::Test => "test",
            EvidenceKind::Benchmark => "benchmark",
            EvidenceKind::Doc => "doc",
            EvidenceKind::Thread => "thread",
            EvidenceKind::External => "external",
        }
    }

    /// Display text: the lowercase kind name.
    pub fn to_string(self) -> (r: String)
        ensures
            r@ == evidence_kind_name(self),
    {
        string_from(self.as_str())
    }

    /// Parse a kind name; unknown names give the message listing the
    /// valid kinds.
    pub fn parse(s: &str) -> (r: Result<EvidenceKind, String>)
        ensures
            match r {
                Ok(k) => evidence_kind_from_name(s@) == Some(k),
                Err(m) => evidence_kind_from_name(s@) is None && m@ == evidence_kind_parse_error(s@),
            },
    {
        if str_eq(s, "commit") {
            Ok(EvidenceKind::Commit)
        } else if str_eq(s, "file") {
            Ok(EvidenceKind::File)
        } else if str_eq(s, "hunk") {
            Ok(EvidenceKind::Hunk)
        } else if str_eq(s, "test") {
            Ok(EvidenceKind::Test)
        } else if str_eq(s, "benchmark") {
            Ok(EvidenceKind::Benchmark)
        } else if str_eq(s, "doc") {
            Ok(EvidenceKind::Doc)
        } else if str_eq(s, "thread") {
            Ok(EvidenceKind::Thread)
        } else if str_eq(s, "external") {
            Ok(EvidenceKind::External)
        } else {
            let mut v = chars_of("unknown evidence kind '");
            push_str(&mut v, s);
            push_str(&mut v, "'; valid: commit, file, hunk, test, benchmark, doc, thread, external");
            Err(string_of(v.as_slice()))
        }
    }
}

impl core::str::FromStr for EvidenceKind {
    type Err = String;

    fn from_str(s: &str) -> Result<EvidenceKind, String> {
        EvidenceKind::parse(s)
    }
}

/// Display then parse gives the kind back.
pub proof fn lemma_evidence_kind_round_trip(k: EvidenceKind)
    ensures
        evidence_kind_from_name(evidence_kind_name(k)) == Some(k),
{
    reveal_strlit("commit");
    assert("commit"@[0] == 'c' && "commit"@.len() == 6);
    reveal_strlit("file");
    assert("file"@[0] == 'f' && "file"@.len() == 4);
    reveal_strlit("hunk");
    assert("hunk"@[0] == 'h' && "hunk"@.len() == 4);
    reveal_strlit("test");
    assert("test"@[0] == 't' && "test"@.len() == 4);
    reveal_strlit("benchmark");
    assert("benchmark"@[0] == 'b' && "benchmark"@.len() == 9);
    reveal_strlit("doc");
    assert("doc"@[0] == 'd' && "doc"@.len() == 3);
    reveal_strlit("thread");
    assert("thread"@[0] == 't' && "thread"@.len() == 6);
    reveal_strlit("external");
    assert("external"@[0] == 'e' && "external"@.len() == 8);
    match k {
        EvidenceKind::Commit => assert(evidence_kind_from_name("commit"@) == Some(EvidenceKind::Commit)),
        EvidenceKind::File => assert(evidence_kind_from_name("file"@) == Some(EvidenceKind::File)),
        EvidenceKind::Hunk => assert(evidence_kind_from_name("hunk"@) == Some(EvidenceKind::Hunk)),
        EvidenceKind::Test => assert(evidence_kind_from_name("test"@) == Some(EvidenceKind::Test)),
        EvidenceKind::Benchmark => assert(evidence_kind_from_name("benchmark"@) == Some(EvidenceKind::Benchmark)),
        EvidenceKind::Doc => assert(evidence_kind_from_name("doc"@) == Some(EvidenceKind::Doc)),
        EvidenceKind::Thread => assert(evidence_kind_from_name("thread"@) == Some(EvidenceKind::Thread)),
        EvidenceKind::External => assert(evidence_kind_from_name("external"@) == Some(EvidenceKind::External)),
    }
}

/// A UTC instant as whole seconds since the Unix epoch plus the
/// sub-second nanoseconds (`0..2_000_000_000`, the upper half marking a
/// leap second), the two numbers a `chrono::DateTime<Utc>` is rebuilt from.
#[derive(Debug, Clone, Copy, PartialEq, Eq, Structural)]
pub struct Timestamp {
    pub secs: i64,
    pub nanos: u32,
}


/// The patterns the crate formats instants with.
pub open spec fn known_pattern(p: Seq<char>) -> bool {
    p == "%Y-%m-%d %H:%M"@ || p == "%Y-%m-%dT%H:%M:%SZ"@ || p == "%Y-%m-%d"@
}

/// The text chrono writes for an instant (seconds and nanoseconds since
/// the epoch, in UTC) and a format pattern, when chrono can represent the
/// instant.
pub uninterp spec fn timestamp_text(secs: i64, nanos: u32, pattern: Seq<char>) -> Option<Seq<char>>;

/// `chrono::DateTime::<Utc>::from_timestamp` then `format(pattern)`: the
/// text of an instant, `None` when chrono cannot represent it. The
/// patterns are fixed ones that chrono accepts.
#[verifier::external_body]
pub(crate) fn format_timestamp(t: Timestamp, pattern: &str) -> (r: Option<String>)
    requires
        known_pattern(pattern@),
    ensures
        match r {
            Some(x) => timestamp_text(t.secs, t.nanos, pattern@) == Some(x@),
            None => timestamp_text(t.secs, t.nanos, pattern@) is None,
        },
{
    match chrono::DateTime::<chrono::Utc>::from_timestamp(t.secs, t.nanos) {
        Some(dt) => Some(dt.format(pattern).to_string()),
        None => None,
    }
}

/// Optional locator fields for an evidence reference.
#[derive(Debug, Clone, Default)]
pub struct Locator {
    pub path: Option<String>,
    pub lines: Option<String>,
    pub rows: Option<String>,
    pub commit: Option<String>,
    pub url: Option<String>,
}

/// A reference to supporting evidence. `evidence_id` is filled from the
/// enclosing event's id during replay and is not stored.
#[derive(Debug, Clone)]
pub struct Evidence {
    pub evidence_id: String,
    pub kind: EvidenceKind,
    pub ref_target: String,
    pub locator: Option<Locator>,
}

/// One `[[evidence]]` entry of a thread snapshot's `evidence.toml`.
#[derive(Debug, Clone)]
pub struct EvidenceRecord {
    pub id: String,
    pub kind: EvidenceKind,
    pub ref_target: String,
    pub created_at: Timestamp,
    pub created_by: String,
}

/// The `evidence.toml` document.
#[derive(Debug, Clone, Default)]
pub struct EvidenceFile {
    pub entries: Vec<EvidenceRecord>,
}

impl Locator {
    /// A field-by-field copy.
    pub fn duplicate(&self) -> (r: Locator)
        ensures
            r == *self,
    {
        Locator {
            path: clone_opt_string(&self.path),
            lines: clone_opt_string(&self.lines),
            rows: clone_opt_string(&self.rows),
            commit: clone_opt_string(&self.commit),
            url: clone_opt_string(&self.url),
        }
    }
}

impl Evidence {
    /// A field-by-field copy.
    pub fn duplicate(&self) -> (r: Evidence)
        ensures
            r == *self,
    {
        Evidence {
            evidence_id: self.evidence_id.clone(),
            kind: self.kind,
            ref_target: self.ref_target.clone(),
            locator: match &self.locator {
                Some(l) => Some(l.duplicate()),
                None => None,
            },
        }
    }
}

impl EvidenceFile {
    pub fn is_empty(&self) -> (r: bool)
        ensures
            r == (self.entries@.len() == 0),
    {
        self.entries.len() == 0
    }
}

} // verus!
