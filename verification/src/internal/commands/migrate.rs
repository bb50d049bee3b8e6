//! The `migrate` command's pure parts: legacy-ID aliases and bare
//! tokens, the canonical tag of a legacy kind, tree-safe node IDs, the
//! target check, and the report model.

use vstd::prelude::*;

use crate::internal::error::ForumError;
use crate::internal::evidence::Timestamp;
use crate::internal::id_alloc::{
    base36_digit, base36_text, is_bare_token, is_token, sha256, sha256_digest, split_dash, find_char,
};
use crate::internal::event::{event_type_name, lifecycle_name, tag_error, validate_tag, EventType, Lifecycle};
use crate::internal::commands::thread_new::{augment_tags_for_lifecycle, has_tag};
use crate::text::{no_dups, push_new, strs};
use crate::internal::thread::ThreadKind;
use crate::text::{
    chars_of, string_of, push_str, str_eq, is_lower, is_lower_exec, is_base36, replace_char,
    replace_char_exec, string_from,
};
use vstd::utf8::encode_utf8;
use crate::internal::actor::opt_view;
use crate::internal::commands::doctor::{thread_ref_name, SnapshotRead};

verus! {

/// Where alias refs for legacy thread IDs live.
pub const ALIASES_PREFIX: &'static str = "refs/forum/aliases/";

/// The only migration target this version accepts.
pub const SUPPORTED_TARGET: &'static str = "3.0";

/// File name of the machine-readable migration report.
pub const REPORT_FILENAME: &'static str = "migration-report.json";

/// The alias ref of a legacy thread ID.
pub fn alias_ref(legacy_id: &str) -> (r: String)
    ensures
        r@ == "refs/forum/aliases/"@ + legacy_id@,
{
    let mut v = chars_of("refs/forum/aliases/");
    push_str(&mut v, legacy_id);
    string_of(v.as_slice())
}

/// The salt hashed before the seed.
pub open spec fn token_salt() -> Seq<char> {
    "git-forum/migrate/v2.0\n"@
}

/// The letter `a..z` chosen by a byte.
pub open spec fn letter_for(b: u8) -> char {
    ((97 + (b % 26)) as u8) as char
}

/// The deterministic token minted for a seed: the first eight digest
/// bytes of SHA-256 over the salt and the seed, as base36, with a
/// leading digit replaced by the letter that digest byte 8 chooses.
pub open spec fn seed_token(seed: Seq<char>) -> Seq<char> {
    let h = sha256_digest(encode_utf8(token_salt()) + encode_utf8(seed));
    let t = base36_text(h, 8);
    if t.len() > 0 && !is_lower(t[0]) {
        t.update(0, letter_for(h[8]))
    } else {
        t
    }
}

/// The bare token of a legacy thread ID: a bare token is kept; the token
/// of an opaque `KIND-token` is taken; anything else is hashed.
pub open spec fn bare_token(id: Seq<char>) -> Seq<char> {
    if is_token(id) {
        id
    } else {
        match split_dash(id) {
            Some((_, t)) => if is_token(t) {
                t
            } else {
                seed_token(id)
            },
            None => seed_token(id),
        }
    }
}

fn append_bytes(out: &mut Vec<u8>, b: &[u8])
    ensures
        final(out)@ == old(out)@ + b@,
{
    let ghost start = out@;
    let mut i: usize = 0;
    while i < b.len()
        invariant
            i <= b@.len(),
            out@ == start + b@.take(i as int),
        decreases b@.len() - i,
    {
        out.push(b[i]);
        i += 1;
        proof {
            assert(b@.take(i as int) =~= b@.take(i - 1).push(b@[i - 1]));
        }
    }
    proof {
        assert(b@.take(i as int) =~= b@);
    }
}

/// Hash `seed` to an 8-character base36 token whose first character is a
/// letter (see [`seed_token`]).
fn derive_token_from_seed(seed: &str) -> (r: String)
    ensures
        r@ == seed_token(seed@),
        is_token(r@),
{
    let mut data: Vec<u8> = Vec::new();
    append_bytes(&mut data, "git-forum/migrate/v2.0\n".as_bytes());
    append_bytes(&mut data, seed.as_bytes());
    proof {
        assert(data@ =~= encode_utf8(token_salt()) + encode_utf8(seed@));
    }
    let h = sha256(data.as_slice());
    let t = crate::internal::id_alloc::base36_encode(h.as_slice(), 8);
    let mut cs = chars_of(t.as_str());
    proof {
        assert(cs@.len() == 8);
    }
    if !is_lower_exec(cs[0]) {
        let b: u8 = h[8];
        let c: char = (97 + (b % 26)) as char;
        cs.set(0, c);
    }
    proof {
        assert(cs@ =~= seed_token(seed@));
        assert forall|i: int| 0 <= i < cs@.len() implies is_base36(#[trigger] cs@[i]) by {
            if i == 0 && !is_lower(t@[0]) {
                assert(cs@[0] == letter_for(h@[8]));
            } else {
                assert(cs@[i] == t@[i]);
            }
        }
        assert(is_lower(cs@[0]));
    }
    string_of(cs.as_slice())
}

/// The deterministic bare token for a legacy thread ID (see
/// [`bare_token`]); always satisfies the bare-token grammar, so mapping
/// it again gives it back.
pub fn bare_token_for(legacy_id: &str) -> (r: String)
    ensures
        r@ == bare_token(legacy_id@),
        is_token(r@),
        bare_token(r@) == r@,
{
    if is_bare_token(legacy_id) {
        return string_from(legacy_id);
    }
    let cs = chars_of(legacy_id);
    let mut i: usize = 0;
    while i < cs.len() && cs[i] != '-'
        invariant
            cs@ == legacy_id@,
            i <= cs@.len(),
            forall|t: int| 0 <= t < i ==> cs@[t] != '-',
        decreases cs@.len() - i,
    {
        i += 1;
    }
    proof {
        lemma_find_first(cs@, '-', 0, i as nat);
    }
    if i < cs.len() {
        let token = crate::text::slice_range(cs.as_slice(), i + 1, cs.len());
        proof {
            assert(token@ =~= cs@.skip(i + 1 as int));
        }
        let ts = string_of(token.as_slice());
        if is_bare_token(ts.as_str()) {
            return ts;
        }
    }
    derive_token_from_seed(legacy_id)
}

proof fn lemma_find_first(s: Seq<char>, c: char, from: nat, i: nat)
    requires
        from <= i <= s.len(),
        forall|t: int| from <= t < i ==> s[t] != c,
        i == s.len() || s[i as int] == c,
    ensures
        find_char(s, c, from) == (if i == s.len() { None } else { Some(i) }),
    decreases i - from,
{
    if from < i {
        lemma_find_first(s, c, from + 1, i);
    }
}

/// The canonical tag a legacy kind adds on migration.
pub open spec fn canonical_tag(kind: ThreadKind) -> Option<Seq<char>> {
    match kind {
        ThreadKind::Issue => Some("bug"@),
        ThreadKind::Dec => Some("decision"@),
        ThreadKind::Rfc | ThreadKind::Task => None,
    }
}

/// The extra tag a legacy kind carries into a snapshot: `bug` for issues,
/// `decision` for decisions, none for RFCs and tasks.
pub fn legacy_kind_to_canonical_tag(kind: ThreadKind) -> (r: Option<&'static str>)
    ensures
        match r {
            Some(t) => canonical_tag(kind) == Some(t@),
            None => canonical_tag(kind) is None,
        },
{
    match kind {
        ThreadKind::Issue => Some("bug"),
        ThreadKind::Dec => Some("decision"),
        ThreadKind::Rfc | ThreadKind::Task => None,
    }
}

/// A node ID usable as a file name: every `/` becomes `-`.
pub fn tree_safe_node_id(legacy_id: &str) -> (r: String)
    ensures
        r@ == replace_char(legacy_id@, '/', '-'),
        forall|i: int| 0 <= i < r@.len() ==> #[trigger] r@[i] != '/',
{
    let cs = chars_of(legacy_id);
    let out = replace_char_exec(cs.as_slice(), '/', '-');
    string_of(out.as_slice())
}

/// The message for a migration target other than the supported one.
pub open spec fn unsupported_target_message(to: Seq<char>) -> Seq<char> {
    "unsupported migration target `"@ + to + "`; v3.0.0 only accepts `--to 3.0`"@
}

/// Accept only the supported migration target.
pub fn check_target(to: &str) -> (r: Result<(), ForumError>)
    ensures
        to@ == "3.0"@ <==> r is Ok,
        r matches Err(ForumError::Config(m)) ==> m@ == unsupported_target_message(to@),
        r matches Err(e) ==> e is Config,
{
    if str_eq(to, SUPPORTED_TARGET) {
        Ok(())
    } else {
        let mut v = chars_of("unsupported migration target `");
        push_str(&mut v, to);
        push_str(&mut v, "`; v3.0.0 only accepts `--to 3.0`");
        Err(ForumError::Config(string_of(v.as_slice())))
    }
}

/// Arguments of `git forum migrate`.
pub struct MigrateArgs {
    pub to: String,
    pub dry_run: bool,
    pub as_actor: Option<String>,
}

/// Per-ref outcome of a migration walk.
#[derive(Debug, Clone, Copy, PartialEq, Eq, Structural)]
pub enum ThreadOutcome {
    /// The legacy chain was projected and its snapshot written (or would
    /// be, in a dry run).
    Migrated,
    /// The tip already is a snapshot.
    AlreadyMigrated,
    /// Reading, projecting or writing failed for this ref.
    Error,
}

/// One anomaly recorded for a migrated thread.
#[derive(Debug, Clone)]
pub struct Omission {
    pub kind: String,
    pub item: String,
    pub reason: String,
}

/// Per-thread entry of the migration report.
#[derive(Debug, Clone)]
pub struct ThreadReport {
    pub thread_id: String,
    pub ref_name: String,
    pub outcome: ThreadOutcome,
    pub omissions: Vec<Omission>,
    /// Present only for errors.
    pub error: Option<String>,
    /// Present when category and tags were inferred from the legacy kind.
    pub inferred_metadata: Option<String>,
    /// Number of legacy events archived (migrated outcomes only).
    pub archived_events: Option<usize>,
}

/// The migration report.
#[derive(Debug, Clone)]
pub struct MigrationReport {
    pub generated_at: Timestamp,
    pub dry_run: bool,
    pub threads: Vec<ThreadReport>,
}

/// How many reports of `s` have outcome `o`.
pub open spec fn outcome_count(s: Seq<ThreadReport>, o: ThreadOutcome) -> nat
    decreases s.len(),
{
    if s.len() == 0 {
        0
    } else {
        outcome_count(s.drop_last(), o) + if s.last().outcome == o { 1nat } else { 0nat }
    }
}

proof fn lemma_outcome_count_bound(s: Seq<ThreadReport>, o: ThreadOutcome)
    ensures
        outcome_count(s, o) <= s.len(),
    decreases s.len(),
{
    if s.len() > 0 {
        lemma_outcome_count_bound(s.drop_last(), o);
    }
}

/// The number of threads with a given outcome.
pub fn count_outcome(threads: &Vec<ThreadReport>, o: ThreadOutcome) -> (r: usize)
    ensures
        r == outcome_count(threads@, o),
{
    let mut n: usize = 0;
    let mut i: usize = 0;
    while i < threads.len()
        invariant
            i <= threads@.len(),
            n == outcome_count(threads@.take(i as int), o),
        decreases threads@.len() - i,
    {
        proof {
            assert(threads@.take(i + 1).drop_last() =~= threads@.take(i as int));
            lemma_outcome_count_bound(threads@.take(i as int), o);
        }
        if threads[i].outcome == o {
            n += 1;
        }
        i += 1;
    }
    proof {
        assert(threads@.take(i as int) =~= threads@);
    }
    n
}

// ---------------------------------------------------------------------------
// What the report records of one thread
// ---------------------------------------------------------------------------

/// A silent no-op that strict replay of a legacy chain found.
#[derive(Debug, Clone)]
pub enum StrictReplayIssue {
    UnknownTargetNode { event_id: String, event_type: EventType, target_node_id: String },
    MissingRequiredField { event_id: String, event_type: EventType, field: &'static str },
    LifecycleResetAttempted { event_id: String, existing: String, attempted: String },
    InvalidLifecycleValue { event_id: String, value: String },
    InvalidStateValue { event_id: String, value: String },
    InvalidTransition { event_id: String, from: String, to: String, lifecycle: Lifecycle },
}

/// An omission with exactly these fields.
pub open spec fn omission_is(o: Omission, kind: Seq<char>, item: Seq<char>, reason: Seq<char>) -> bool {
    o.kind@ == kind && o.item@ == item && o.reason@ == reason
}

/// The report entry for a strict-replay issue: its kind, the item it is
/// about, and why.
pub open spec fn issue_omission(issue: StrictReplayIssue, o: Omission) -> bool {
    match issue {
        StrictReplayIssue::UnknownTargetNode { event_id, event_type, target_node_id } => omission_is(
            o,
            "node"@,
            target_node_id@,
            event_type_name(event_type) + " event "@ + event_id@ + " targets unknown node"@,
        ),
        StrictReplayIssue::MissingRequiredField { event_id, event_type, field } => omission_is(
            o,
            "field"@,
            field@,
            event_type_name(event_type) + " event "@ + event_id@ + " is missing required field"@,
        ),
        StrictReplayIssue::LifecycleResetAttempted { event_id, existing, attempted } => omission_is(
            o,
            "lifecycle"@,
            attempted@,
            "facet_set event "@ + event_id@ + " attempted to reset lifecycle from `"@ + existing@ + "`"@,
        ),
        StrictReplayIssue::InvalidLifecycleValue { event_id, value } => omission_is(
            o,
            "lifecycle"@,
            value@,
            "facet_set event "@ + event_id@ + " carries unknown lifecycle"@,
        ),
        StrictReplayIssue::InvalidStateValue { event_id, value } => omission_is(
            o,
            "state"@,
            value@,
            "state event "@ + event_id@ + " carries unparseable status"@,
        ),
        StrictReplayIssue::InvalidTransition { event_id, from, to, lifecycle } => omission_is(
            o,
            "transition"@,
            from@ + "->"@ + to@,
            "state event "@ + event_id@ + " edge not legal under lifecycle `"@ + lifecycle_name(lifecycle) + "`"@,
        ),
    }
}

fn omission(kind: &str, item: Vec<char>, reason: Vec<char>) -> (r: Omission)
    ensures
        omission_is(r, kind@, item@, reason@),
{
    Omission { kind: string_from(kind), item: string_of(item.as_slice()), reason: string_of(reason.as_slice()) }
}

/// The report entry for a strict-replay issue (see [`issue_omission`]).
pub fn strict_issue_to_omission(issue: &StrictReplayIssue) -> (r: Omission)
    ensures
        issue_omission(*issue, r),
{
    match issue {
        StrictReplayIssue::UnknownTargetNode { event_id, event_type, target_node_id } => {
            let mut why = chars_of(event_type.as_str());
            push_str(&mut why, " event ");
            push_str(&mut why, event_id.as_str());
            push_str(&mut why, " targets unknown node");
            omission("node", chars_of(target_node_id.as_str()), why)
        },
        StrictReplayIssue::MissingRequiredField { event_id, event_type, field } => {
            let mut why = chars_of(event_type.as_str());
            push_str(&mut why, " event ");
            push_str(&mut why, event_id.as_str());
            push_str(&mut why, " is missing required field");
            omission("field", chars_of(field), why)
        },
        StrictReplayIssue::LifecycleResetAttempted { event_id, existing, attempted } => {
            let mut why = chars_of("facet_set event ");
            push_str(&mut why, event_id.as_str());
            push_str(&mut why, " attempted to reset lifecycle from `");
            push_str(&mut why, existing.as_str());
            push_str(&mut why, "`");
            omission("lifecycle", chars_of(attempted.as_str()), why)
        },
        StrictReplayIssue::InvalidLifecycleValue { event_id, value } => {
            let mut why = chars_of("facet_set event ");
            push_str(&mut why, event_id.as_str());
            push_str(&mut why, " carries unknown lifecycle");
            omission("lifecycle", chars_of(value.as_str()), why)
        },
        StrictReplayIssue::InvalidStateValue { event_id, value } => {
            let mut why = chars_of("state event ");
            push_str(&mut why, event_id.as_str());
            push_str(&mut why, " carries unparseable status");
            omission("state", chars_of(value.as_str()), why)
        },
        StrictReplayIssue::InvalidTransition { event_id, from, to, lifecycle } => {
            let mut item = chars_of(from.as_str());
            push_str(&mut item, "->");
            push_str(&mut item, to.as_str());
            let mut why = chars_of("state event ");
            push_str(&mut why, event_id.as_str());
            push_str(&mut why, " edge not legal under lifecycle `");
            push_str(&mut why, lifecycle.as_str());
            push_str(&mut why, "`");
            omission("transition", item, why)
        },
    }
}

pub open spec fn ancestor_reason() -> Seq<char> {
    "snapshot ancestor; new legacy/events.ndjson contains only events after this commit (the ancestor's archive is preserved on its own commit)"@
}

/// The omissions of a migrated thread, in order: one per strict-replay
/// issue, the projection's own, then the snapshot ancestor, if any.
pub open spec fn collected(
    issues: Seq<StrictReplayIssue>,
    projected: Seq<Omission>,
    snapshot_ancestor: Option<String>,
    r: Seq<Omission>,
) -> bool {
    &&& r.len() == issues.len() + projected.len() + (if snapshot_ancestor is Some { 1int } else { 0int })
    &&& forall|i: int| 0 <= i < issues.len() ==> issue_omission(issues[i], #[trigger] r[i])
    &&& forall|i: int| 0 <= i < projected.len() ==> #[trigger] r[issues.len() + i] == projected[i]
    &&& snapshot_ancestor matches Some(a) ==> omission_is(r[r.len() - 1], "archive"@, a@, ancestor_reason())
}

/// The omissions of a migrated thread: one per strict-replay issue, then
/// those the projection recorded, then the snapshot ancestor the archive
/// stops at, if any.
pub fn collect_omissions(
    issues: &Vec<StrictReplayIssue>,
    projected: Vec<Omission>,
    snapshot_ancestor: Option<String>,
) -> (r: Vec<Omission>)
    ensures
        collected(issues@, projected@, snapshot_ancestor, r@),
{
    let mut out: Vec<Omission> = Vec::new();
    let mut i: usize = 0;
    while i < issues.len()
        invariant
            i <= issues@.len(),
            out@.len() == i,
            forall|q: int| 0 <= q < i ==> issue_omission(issues@[q], #[trigger] out@[q]),
        decreases issues@.len() - i,
    {
        out.push(strict_issue_to_omission(&issues[i]));
        i += 1;
    }
    let mut rest = projected;
    let ghost before = out@;
    out.append(&mut rest);
    proof {
        assert forall|q: int| 0 <= q < issues@.len() implies issue_omission(issues@[q], #[trigger] out@[q]) by {
            assert(out@[q] == before[q]);
        }
    }
    let ghost mid = out@;
    match snapshot_ancestor {
        Some(a) => {
            out.push(
                Omission {
                    kind: string_from("archive"),
                    item: a,
                    reason: string_from(
                        "snapshot ancestor; new legacy/events.ndjson contains only events after this commit (the ancestor's archive is preserved on its own commit)",
                    ),
                },
            );
        },
        None => {},
    }
    proof {
        assert forall|q: int| 0 <= q < issues@.len() implies issue_omission(issues@[q], #[trigger] out@[q]) by {
            assert(out@[q] == mid[q]);
        }
        assert forall|q: int| 0 <= q < projected@.len() implies #[trigger] out@[issues@.len() + q] == projected@[q] by {
            assert(out@[issues@.len() + q] == mid[issues@.len() + q]);
        }
    }
    out
}

// ---------------------------------------------------------------------------
// One ref's migration
// ---------------------------------------------------------------------------

/// What the strict projection of a legacy chain gave.
pub struct LegacyProjection {
    pub issues: Vec<StrictReplayIssue>,
    pub omissions: Vec<Omission>,
    /// The lifecycle came from the legacy kind (no facet set in the chain).
    pub lifecycle_inferred: bool,
}

/// What migrating one ref met, stage by stage, in the order the stages
/// run; a stage counts only when every stage before it succeeded.
pub struct MigrateFacts {
    /// Reading the tip as a snapshot.
    pub read: SnapshotRead,
    /// Resolving the ref (`None`: it is gone).
    pub tip: Result<Option<String>, String>,
    /// Loading the event tail: how many events, and the snapshot ancestor
    /// the tail stops at, if any.
    pub tail: Result<(usize, Option<String>), String>,
    pub projection: Result<LegacyProjection, String>,
    /// Building the archive of the tail (not run in a dry run).
    pub archive: Result<(), String>,
    /// Writing the snapshot with its archive (not run in a dry run).
    pub write: Result<(), String>,
}

pub open spec fn inferred_note() -> Seq<char> {
    "lifecycle inferred from legacy kind (no facet_set in chain — normal for 1.x)"@
}

/// Whether the projection stage was reached and succeeded.
pub open spec fn projected(f: MigrateFacts) -> bool {
    &&& f.read is LegacyChain
    &&& f.tip matches Ok(Some(_))
    &&& f.tail is Ok
    &&& f.projection is Ok
}

/// The error of migrating a ref with these facts, if one stage failed.
pub open spec fn migrate_error(thread_id: Seq<char>, f: MigrateFacts, dry_run: bool) -> Option<Seq<char>> {
    let rn = thread_ref_name(thread_id);
    match f.read {
        SnapshotRead::Decoded => None,
        SnapshotRead::Failed(e) => Some(e@),
        SnapshotRead::LegacyChain => match f.tip {
            Err(e) => Some("resolve_ref("@ + rn + "): "@ + e@),
            Ok(None) => Some("ref "@ + rn + " disappeared during migration walk"@),
            Ok(Some(_)) => match f.tail {
                Err(e) => Some("load_event_tail_at: "@ + e@),
                Ok(_) => match f.projection {
                    Err(e) => Some("projection: "@ + e@),
                    Ok(_) => if dry_run {
                        None
                    } else {
                        match f.archive {
                            Err(e) => Some("build_archive_ndjson: "@ + e@),
                            Ok(_) => match f.write {
                                Err(e) => Some("write_snapshot_with_archive_pinned: "@ + e@),
                                Ok(_) => None,
                            },
                        }
                    },
                },
            },
        },
    }
}

/// The report entry of one ref: already migrated when its tip is a
/// snapshot; an error naming the first stage that failed; migrated
/// otherwise (also in a dry run, where nothing is written), with the
/// number of events archived. Once the projection succeeded the entry
/// carries its omissions and the inferred-lifecycle note, even when a
/// later stage failed.
pub open spec fn migrate_report(thread_id: Seq<char>, f: MigrateFacts, dry_run: bool, r: ThreadReport) -> bool {
    let err = migrate_error(thread_id, f, dry_run);
    &&& r.thread_id@ == thread_id
    &&& r.ref_name@ == thread_ref_name(thread_id)
    &&& r.outcome == (if f.read is Decoded {
        ThreadOutcome::AlreadyMigrated
    } else if err is Some {
        ThreadOutcome::Error
    } else {
        ThreadOutcome::Migrated
    })
    &&& opt_view(r.error) == err
    &&& r.archived_events == (if r.outcome == ThreadOutcome::Migrated {
        Some(f.tail->Ok_0.0)
    } else {
        None
    })
    &&& if projected(f) {
        &&& collected(
            f.projection->Ok_0.issues@,
            f.projection->Ok_0.omissions@,
            f.tail->Ok_0.1,
            r.omissions@,
        )
        &&& opt_view(r.inferred_metadata) == (if f.projection->Ok_0.lifecycle_inferred {
            Some(inferred_note())
        } else {
            None
        })
    } else {
        r.omissions@.len() == 0 && r.inferred_metadata is None
    }
}

fn prefixed(label: &str, rest: &str) -> (r: String)
    ensures
        r@ == label@ + rest@,
{
    let mut v = chars_of(label);
    push_str(&mut v, rest);
    string_of(v.as_slice())
}

fn labelled_text(label: &str, mid: &str, tail: &str) -> (r: String)
    ensures
        r@ == label@ + mid@ + tail@,
{
    let mut v = chars_of(label);
    push_str(&mut v, mid);
    push_str(&mut v, tail);
    string_of(v.as_slice())
}

/// The report entry of migrating one ref, from what each stage met (see
/// [`migrate_report`]).
pub fn migrate_outcome(thread_id: &str, facts: MigrateFacts, dry_run: bool) -> (r: ThreadReport)
    ensures
        migrate_report(thread_id@, facts, dry_run, r),
{
    let ghost f = facts;
    let ref_name = prefixed("refs/forum/threads/", thread_id);
    let mut report = ThreadReport {
        thread_id: string_from(thread_id),
        ref_name,
        outcome: ThreadOutcome::Error,
        omissions: Vec::new(),
        error: None,
        inferred_metadata: None,
        archived_events: None,
    };
    let MigrateFacts { read, tip, tail, projection, archive, write } = facts;
    match read {
        SnapshotRead::Decoded => {
            report.outcome = ThreadOutcome::AlreadyMigrated;
            return report;
        },
        SnapshotRead::Failed(e) => {
            report.error = Some(e);
            return report;
        },
        SnapshotRead::LegacyChain => {},
    }
    match tip {
        Ok(Some(_)) => {},
        Ok(None) => {
            report.error = Some(labelled_text("ref ", report.ref_name.as_str(), " disappeared during migration walk"));
            return report;
        },
        Err(e) => {
            let head = labelled_text("resolve_ref(", report.ref_name.as_str(), "): ");
            report.error = Some(prefixed(head.as_str(), e.as_str()));
            return report;
        },
    }
    let (events, ancestor) = match tail {
        Ok(pair) => pair,
        Err(e) => {
            report.error = Some(prefixed("load_event_tail_at: ", e.as_str()));
            return report;
        },
    };
    let proj = match projection {
        Ok(p) => p,
        Err(e) => {
            report.error = Some(prefixed("projection: ", e.as_str()));
            return report;
        },
    };
    let LegacyProjection { issues, omissions, lifecycle_inferred } = proj;
    report.omissions = collect_omissions(&issues, omissions, ancestor);
    if lifecycle_inferred {
        report.inferred_metadata = Some(
            string_from("lifecycle inferred from legacy kind (no facet_set in chain — normal for 1.x)"),
        );
    }
    if dry_run {
        report.outcome = ThreadOutcome::Migrated;
        report.archived_events = Some(events);
        return report;
    }
    match archive {
        Ok(()) => {},
        Err(e) => {
            report.error = Some(prefixed("build_archive_ndjson: ", e.as_str()));
            return report;
        },
    }
    match write {
        Ok(()) => {},
        Err(e) => {
            report.error = Some(prefixed("write_snapshot_with_archive_pinned: ", e.as_str()));
            return report;
        },
    }
    report.outcome = ThreadOutcome::Migrated;
    report.archived_events = Some(events);
    report
}

// ---------------------------------------------------------------------------
// What a migration run prints
// ---------------------------------------------------------------------------

pub open spec fn run_prefix(dry_run: bool) -> Seq<char> {
    if dry_run {
        "[DRY-RUN] "@
    } else {
        Seq::<char>::empty()
    }
}

/// The closing line of a run: how many threads migrated, were already
/// migrated, and failed.
pub fn run_summary_line(threads: &Vec<ThreadReport>, dry_run: bool) -> (r: String)
    ensures
        r@ == run_prefix(dry_run) + "migrated="@ + crate::text::decimal(outcome_count(threads@, ThreadOutcome::Migrated))
            + " already="@ + crate::text::decimal(outcome_count(threads@, ThreadOutcome::AlreadyMigrated)) + " errors="@
            + crate::text::decimal(outcome_count(threads@, ThreadOutcome::Error)),
{
    let mut v: Vec<char> = if dry_run { chars_of("[DRY-RUN] ") } else { Vec::new() };
    push_str(&mut v, "migrated=");
    crate::text::push_usize(&mut v, count_outcome(threads, ThreadOutcome::Migrated));
    push_str(&mut v, " already=");
    crate::text::push_usize(&mut v, count_outcome(threads, ThreadOutcome::AlreadyMigrated));
    push_str(&mut v, " errors=");
    crate::text::push_usize(&mut v, count_outcome(threads, ThreadOutcome::Error));
    string_of(v.as_slice())
}

/// The commit message of a migrated thread's snapshot.
pub fn migrate_commit_message(thread_id: &str, archived: usize) -> (r: String)
    ensures
        r@ == "[git-forum] migrate "@ + thread_id@ + " to 3.0 ("@ + crate::text::decimal(archived as nat)
            + " legacy event(s) archived)"@,
{
    let mut v = chars_of("[git-forum] migrate ");
    push_str(&mut v, thread_id);
    push_str(&mut v, " to 3.0 (");
    crate::text::push_usize(&mut v, archived);
    push_str(&mut v, " legacy event(s) archived)");
    string_of(v.as_slice())
}

/// The warning printed for an omission of a thread.
pub fn omission_warning(thread_id: &str, o: &Omission) -> (r: String)
    ensures
        r@ == "warning: "@ + thread_id@ + ": ["@ + o.kind@ + "] "@ + o.item@ + " — "@ + o.reason@,
{
    let mut v = chars_of("warning: ");
    push_str(&mut v, thread_id);
    push_str(&mut v, ": [");
    push_str(&mut v, o.kind.as_str());
    push_str(&mut v, "] ");
    push_str(&mut v, o.item.as_str());
    push_str(&mut v, " — ");
    push_str(&mut v, o.reason.as_str());
    string_of(v.as_slice())
}

/// The actor a migration runs as: the one given, else the configured
/// default, else `system/migrate`.
pub fn migrate_actor(as_actor: Option<String>, default_actor: Option<String>) -> (r: String)
    ensures
        r@ == match as_actor {
            Some(a) => a@,
            None => match default_actor {
                Some(d) => d@,
                None => "system/migrate"@,
            },
        },
{
    match as_actor {
        Some(a) => a,
        None => match default_actor {
            Some(d) => d,
            None => string_from("system/migrate"),
        },
    }
}

/// How a migration run ends: `Ok` when no thread failed, else the error
/// that counts the failures and points at the report.
pub fn finish_migration(threads: &Vec<ThreadReport>, report_path: &str) -> (r: Result<(), ForumError>)
    ensures
        r is Ok <==> outcome_count(threads@, ThreadOutcome::Error) == 0,
        r matches Err(ForumError::Config(m)) ==> m@ == crate::text::decimal(outcome_count(threads@, ThreadOutcome::Error))
            + " thread(s) failed to migrate; see error lines above and report at "@ + report_path@,
        r matches Err(e) ==> e is Config,
{
    let errors = count_outcome(threads, ThreadOutcome::Error);
    if errors > 0 {
        Err(failed_threads_error(errors, report_path))
    } else {
        Ok(())
    }
}

/// The error of a run in which some threads failed.
pub fn failed_threads_error(errors: usize, report_path: &str) -> (r: ForumError)
    ensures
        r matches ForumError::Config(m) && m@ == crate::text::decimal(errors as nat)
            + " thread(s) failed to migrate; see error lines above and report at "@ + report_path@,
{
    let mut v: Vec<char> = Vec::new();
    crate::text::push_usize(&mut v, errors);
    push_str(&mut v, " thread(s) failed to migrate; see error lines above and report at ");
    push_str(&mut v, report_path);
    ForumError::Config(string_of(v.as_slice()))
}


// ---------------------------------------------------------------------------
// Tags of a migrated snapshot
// ---------------------------------------------------------------------------

/// The valid tags, each once, in order of first occurrence.
pub open spec fn kept_tags(tags: Seq<Seq<char>>) -> Seq<Seq<char>>
    decreases tags.len(),
{
    if tags.len() == 0 {
        seq![]
    } else {
        let r = kept_tags(tags.drop_last());
        if tag_error(tags.last()) is None {
            push_new(r, tags.last())
        } else {
            r
        }
    }
}

/// The invalid tags, in order, each with why it is invalid.
pub open spec fn dropped_tags(tags: Seq<Seq<char>>) -> Seq<(Seq<char>, Seq<char>)>
    decreases tags.len(),
{
    if tags.len() == 0 {
        seq![]
    } else {
        let r = dropped_tags(tags.drop_last());
        match tag_error(tags.last()) {
            Some(reason) => r.push((tags.last(), reason)),
            None => r,
        }
    }
}

/// The tags of a migrated snapshot: the valid legacy tags, then
/// `decision` for records, then the legacy kind's canonical tag, each
/// added only when absent.
pub open spec fn projected_tags(tags: Seq<Seq<char>>, l: Lifecycle, kind: ThreadKind) -> Seq<Seq<char>> {
    let k = kept_tags(tags);
    let a = if l == Lifecycle::Record && !k.contains("decision"@) {
        k.push("decision"@)
    } else {
        k
    };
    match canonical_tag(kind) {
        Some(c) => push_new(a, c),
        None => a,
    }
}

pub open spec fn omissions_view(v: Seq<Omission>) -> Seq<(Seq<char>, Seq<char>, Seq<char>)> {
    Seq::new(v.len(), |i: int| (v[i].kind@, v[i].item@, v[i].reason@))
}

/// The tags a legacy thread carries into its snapshot (see
/// [`projected_tags`]), and a `tag` omission for each invalid tag dropped.
pub fn project_tags(tags: &Vec<String>, lifecycle: Lifecycle, kind: ThreadKind) -> (r: (Vec<String>, Vec<Omission>))
    ensures
        strs(r.0@) == projected_tags(strs(tags@), lifecycle, kind),
        omissions_view(r.1@) == Seq::new(
            dropped_tags(strs(tags@)).len(),
            |i: int| ("tag"@, dropped_tags(strs(tags@))[i].0, dropped_tags(strs(tags@))[i].1),
        ),
{
    let ghost ts = strs(tags@);
    let mut kept: Vec<String> = Vec::new();
    let mut omissions: Vec<Omission> = Vec::new();
    let mut i: usize = 0;
    while i < tags.len()
        invariant
            i <= tags@.len(),
            ts == strs(tags@),
            strs(kept@) == kept_tags(ts.take(i as int)),
            omissions_view(omissions@) == Seq::new(
                dropped_tags(ts.take(i as int)).len(),
                |k: int| ("tag"@, dropped_tags(ts.take(i as int))[k].0, dropped_tags(ts.take(i as int))[k].1),
            ),
        decreases tags@.len() - i,
    {
        proof {
            assert(ts.take(i + 1).drop_last() =~= ts.take(i as int));
            assert(ts.take(i + 1).last() == tags@[i as int]@);
        }
        let t = tags[i].as_str();
        match validate_tag(t) {
            Ok(()) => {
                if !has_tag(kept.as_slice(), t) {
                    let ghost before = strs(kept@);
                    kept.push(string_from(t));
                    proof {
                        assert(strs(kept@) =~= before.push(t@));
                    }
                }
                proof {
                    assert(dropped_tags(ts.take(i + 1)) == dropped_tags(ts.take(i as int)));
                    assert(omissions_view(omissions@) =~= Seq::new(
                        dropped_tags(ts.take(i + 1)).len(),
                        |k: int| ("tag"@, dropped_tags(ts.take(i + 1))[k].0, dropped_tags(ts.take(i + 1))[k].1),
                    ));
                }
            },
            Err(reason) => {
                let ghost before = omissions_view(omissions@);
                let ghost rv = reason@;
                proof {
                    assert(dropped_tags(ts.take(i + 1)) == dropped_tags(ts.take(i as int)).push((t@, rv)));
                }
                omissions.push(Omission { kind: string_from("tag"), item: string_from(t), reason });
                proof {
                    assert(omissions_view(omissions@) =~= before.push(("tag"@, t@, rv)));
                    let d = dropped_tags(ts.take(i + 1));
                    assert(d[d.len() - 1] == (t@, rv));
                    assert(omissions_view(omissions@) =~= Seq::new(
                        dropped_tags(ts.take(i + 1)).len(),
                        |k: int| ("tag"@, dropped_tags(ts.take(i + 1))[k].0, dropped_tags(ts.take(i + 1))[k].1),
                    ));
                }
            },
        }
        i += 1;
    }
    proof {
        assert(ts.take(i as int) =~= ts);
    }
    augment_tags_for_lifecycle(lifecycle, &mut kept);
    match legacy_kind_to_canonical_tag(kind) {
        Some(c) => {
            if !has_tag(kept.as_slice(), c) {
                let ghost before = strs(kept@);
                kept.push(string_from(c));
                proof {
                    assert(strs(kept@) =~= before.push(c@));
                }
            }
        },
        None => {},
    }
    (kept, omissions)
}

proof fn lemma_push_new_no_dups(s: Seq<Seq<char>>, x: Seq<char>)
    requires
        no_dups(s),
    ensures
        no_dups(push_new(s, x)),
        forall|y: Seq<char>| push_new(s, x).contains(y) <==> (s.contains(y) || y == x),
{
    if !s.contains(x) {
        assert forall|i: int, j: int| 0 <= i < j < s.push(x).len() implies s.push(x)[i] != s.push(x)[j] by {
            if j == s.len() {
                assert(s[i] == s.push(x)[i]);
            }
        }
        assert forall|y: Seq<char>| s.push(x).contains(y) <==> (s.contains(y) || y == x) by {
            if s.contains(y) {
                let k = choose|k: int| 0 <= k < s.len() && s[k] == y;
                assert(s.push(x)[k] == y);
            }
            if y == x {
                assert(s.push(x)[s.len() as int] == y);
            }
            if s.push(x).contains(y) && y != x {
                let k = choose|k: int| 0 <= k < s.push(x).len() && s.push(x)[k] == y;
                assert(s[k] == y);
            }
        }
    }
}

proof fn lemma_kept_tags(tags: Seq<Seq<char>>)
    ensures
        no_dups(kept_tags(tags)),
        forall|t: Seq<char>| kept_tags(tags).contains(t) ==> tag_error(t) is None,
    decreases tags.len(),
{
    if tags.len() > 0 {
        lemma_kept_tags(tags.drop_last());
        if tag_error(tags.last()) is None {
            lemma_push_new_no_dups(kept_tags(tags.drop_last()), tags.last());
            assert forall|t: Seq<char>| kept_tags(tags).contains(t) implies tag_error(t) is None by {
                assert(kept_tags(tags) == push_new(kept_tags(tags.drop_last()), tags.last()));
                if t != tags.last() {
                    assert(kept_tags(tags.drop_last()).contains(t));
                }
            }
        }
    }
}

/// A migrated snapshot carries no tag twice, and every legacy tag it
/// keeps is valid.
pub proof fn lemma_projected_tags_distinct(tags: Seq<Seq<char>>, l: Lifecycle, kind: ThreadKind)
    ensures
        no_dups(projected_tags(tags, l, kind)),
        forall|t: Seq<char>| kept_tags(tags).contains(t) ==> tag_error(t) is None,
{
    lemma_kept_tags(tags);
    let k = kept_tags(tags);
    let a = if l == Lifecycle::Record && !k.contains("decision"@) {
        k.push("decision"@)
    } else {
        k
    };
    lemma_push_new_no_dups(k, "decision"@);
    assert(no_dups(a));
    if let Some(c) = canonical_tag(kind) {
        lemma_push_new_no_dups(a, c);
    }
}

} // verus!
