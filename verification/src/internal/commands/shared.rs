//! Parsing helpers shared by several commands: kind presets, node-target
//! selection results, and the hints for unknown subcommands.

use vstd::prelude::*;

use crate::internal::error::ForumError;
use crate::internal::evidence::Timestamp;
use crate::internal::policy::{preset_canonical, preset_names};
use crate::text::{chars_of, string_of, push_str, str_eq, join, find_seq, occurs_at, contains_seq, slice_range};

verus! {

/// How the positional arguments of a node-targeting command were read.
pub struct NodeTargetSelection {
    pub thread_id: String,
    pub node_refs: Vec<String>,
    pub explicit_thread: bool,
}

/// The message for an unknown kind preset.
pub open spec fn unknown_kind_message(kind: Seq<char>) -> Seq<char> {
    "unknown kind '"@ + kind + "'; valid presets: "@ + join(preset_names(), ", "@)
}

/// Parse a kind preset name into its canonical preset name.
pub fn parse_thread_kind(kind: &str) -> (r: Result<&'static str, ForumError>)
    ensures
        match r {
            Ok(name) => preset_canonical(kind@) == Some(name@),
            Err(e) => preset_canonical(kind@) is None && e == ForumError::Config(e->Config_0)
                && e->Config_0@ == unknown_kind_message(kind@),
        },
{
    match crate::internal::policy::preset_lookup(kind) {
        Some(p) => Ok(p.name),
        None => {
            let valid = crate::internal::commands::thread_new::valid_preset_names();
            let mut v = chars_of("unknown kind '");
            push_str(&mut v, kind);
            push_str(&mut v, "'; valid presets: ");
            push_str(&mut v, valid.as_str());
            Err(ForumError::Config(string_of(v.as_slice())))
        },
    }
}

/// [`parse_thread_kind`] of an optional filter: `None` stays `None`.
pub fn parse_thread_kind_filter(kind: Option<&str>) -> (r: Result<Option<&'static str>, ForumError>)
    ensures
        match kind {
            None => r == Ok::<Option<&'static str>, ForumError>(None),
            Some(k) => match r {
                Ok(Some(name)) => preset_canonical(k@) == Some(name@),
                Ok(None) => false,
                Err(e) => preset_canonical(k@) is None && e == ForumError::Config(e->Config_0)
                    && e->Config_0@ == unknown_kind_message(k@),
            },
        },
{
    match kind {
        None => Ok(None),
        Some(k) => match parse_thread_kind(k) {
            Ok(name) => Ok(Some(name)),
            Err(e) => Err(e),
        },
    }
}

/// The first position at which `needle` occurs in `hay`, if any.
pub open spec fn first_occurrence(hay: Seq<char>, needle: Seq<char>) -> Option<int> {
    if contains_seq(hay, needle) {
        Some(choose|i: int| occurs_at(hay, needle, i) && forall|j: int| 0 <= j < i ==> !occurs_at(hay, needle, j))
    } else {
        None
    }
}

/// The name in a clap "unrecognized subcommand 'name'" message: the text
/// after the first marker up to the next `'`.
pub open spec fn unrecognized_subcommand(msg: Seq<char>) -> Option<Seq<char>> {
    let marker = "unrecognized subcommand '"@;
    match first_occurrence(msg, marker) {
        Some(i) => {
            let rest = msg.skip(i + marker.len());
            match first_occurrence(rest, "'"@) {
                Some(e) => Some(rest.take(e)),
                None => None,
            }
        },
        None => None,
    }
}

pub proof fn lemma_first_occurrence(hay: Seq<char>, needle: Seq<char>, i: int)
    requires
        occurs_at(hay, needle, i),
        forall|j: int| 0 <= j < i ==> !occurs_at(hay, needle, j),
    ensures
        first_occurrence(hay, needle) == Some(i),
{
    let k = choose|k: int| occurs_at(hay, needle, k) && forall|j: int| 0 <= j < k ==> !occurs_at(hay, needle, j);
    assert(contains_seq(hay, needle));
    if k < i {
        assert(!occurs_at(hay, needle, k));
    }
    if i < k {
        assert(!occurs_at(hay, needle, i));
    }
}

/// Law: a message that holds the marker once, before the name, gives that
/// name back, whatever stands around it: for a name without `'` and a
/// prefix without the marker, `prefix + "unrecognized subcommand '" +
/// name + "'" + suffix` gives `name`.
pub proof fn lemma_unrecognized_subcommand(prefix: Seq<char>, sub: Seq<char>, suffix: Seq<char>)
    requires
        !sub.contains('\''),
        !contains_seq(prefix, "unrecognized subcommand '"@),
    ensures
        unrecognized_subcommand(prefix + "unrecognized subcommand '"@ + sub + "'"@ + suffix) == Some(sub),
{
    let m = "unrecognized subcommand '"@;
    let q = "'"@;
    lemma_marker_shape();
    let msg = prefix + m + sub + q + suffix;
    let p = prefix.len() as int;
    let tail = sub + q + suffix;
    assert(msg =~= prefix + (m + tail));
    lemma_marker_first(prefix, tail);
    lemma_first_occurrence(msg, m, p);
    let rest = msg.skip(p + 25);
    assert(rest =~= tail);
    lemma_quote_first(sub, suffix);
    assert(rest.take(sub.len() as int) =~= sub);
}

proof fn lemma_marker_shape()
    ensures
        "unrecognized subcommand '"@.len() == 25,
        "unrecognized subcommand '"@[24] == '\'',
        forall|t: int| 0 <= t < 24 ==> "unrecognized subcommand '"@[t] != '\'',
        "'"@ == seq!['\''],
{
    reveal_strlit("unrecognized subcommand '");
    reveal_strlit("'");
    assert("'"@ =~= seq!['\'']);
}

proof fn lemma_marker_first(prefix: Seq<char>, tail: Seq<char>)
    requires
        !contains_seq(prefix, "unrecognized subcommand '"@),
        "unrecognized subcommand '"@.len() == 25,
        forall|t: int| 0 <= t < 24 ==> "unrecognized subcommand '"@[t] != '\'',
        "unrecognized subcommand '"@[24] == '\'',
    ensures
        occurs_at(prefix + ("unrecognized subcommand '"@ + tail), "unrecognized subcommand '"@, prefix.len() as int),
        forall|j: int|
            0 <= j < prefix.len() ==> !occurs_at(
                prefix + ("unrecognized subcommand '"@ + tail),
                "unrecognized subcommand '"@,
                j,
            ),
{
    let m = "unrecognized subcommand '"@;
    let mt = m + tail;
    let msg = prefix + mt;
    let p = prefix.len() as int;
    assert(msg.subrange(p, p + 25) =~= m);
    assert forall|j: int| 0 <= j < p implies !occurs_at(msg, m, j) by {
        if occurs_at(msg, m, j) {
            if j + 25 <= p {
                assert(prefix.subrange(j, j + 25) =~= msg.subrange(j, j + 25));
                assert(occurs_at(prefix, m, j));
            } else {
                let t = j + 24 - p;
                assert(msg.subrange(j, j + 25)[24] == msg[j + 24]);
                assert(msg[j + 24] == mt[t]);
                assert(mt[t] == m[t]);
            }
        }
    }
}

proof fn lemma_quote_first(sub: Seq<char>, suffix: Seq<char>)
    requires
        !sub.contains('\''),
        "'"@ == seq!['\''],
    ensures
        first_occurrence(sub + "'"@ + suffix, "'"@) == Some(sub.len() as int),
{
    let q = "'"@;
    let rest = sub + q + suffix;
    let n = sub.len() as int;
    assert(rest.subrange(n, n + 1) =~= q);
    assert forall|j: int| 0 <= j < n implies !occurs_at(rest, q, j) by {
        if occurs_at(rest, q, j) {
            assert(rest.subrange(j, j + 1)[0] == rest[j]);
            assert(rest[j] == sub[j]);
        }
    }
    lemma_first_occurrence(rest, q, n);
}

/// Extract the subcommand name from a clap "unrecognized subcommand"
/// error message.
pub fn parse_unrecognized_subcommand(msg: &str) -> (r: Option<String>)
    ensures
        match r {
            Some(s) => unrecognized_subcommand(msg@) == Some(s@),
            None => unrecognized_subcommand(msg@) is None,
        },
{
    let cs = chars_of(msg);
    let marker = chars_of("unrecognized subcommand '");
    let start = match find_seq(cs.as_slice(), marker.as_slice()) {
        Some(i) => {
            proof {
                lemma_first_occurrence(cs@, marker@, i as int);
                assert(i + marker@.len() <= cs@.len());
            }
            assert(i + marker.len() <= cs.len());
            i + marker.len()
        },
        None => return None,
    };
    let rest = slice_range(cs.as_slice(), start, cs.len());
    proof {
        assert(rest@ =~= msg@.skip(start as int));
    }
    let quote = chars_of("'");
    match find_seq(rest.as_slice(), quote.as_slice()) {
        Some(e) => {
            proof {
                lemma_first_occurrence(rest@, quote@, e as int);
            }
            let name = slice_range(rest.as_slice(), 0, e);
            proof {
                assert(name@ =~= rest@.take(e as int));
            }
            Some(string_of(name.as_slice()))
        },
        None => None,
    }
}

pub const KIND_GROUPING_HINT: &'static str = "kind-prefixed subcommand groupings (`git forum rfc new`, `git forum issue close`, etc.) were removed in 2.0. Use the top-level form:\n  git forum new <kind> \"title\"      (create — kinds: rfc, dec, task, issue, bug)\n  git forum close|accept|propose|pend|reject|withdraw|deprecate <ID>\n  git forum thread new --lifecycle <X> --tag <Y> ...   (canonical / scripts)";

pub const SAY_HINT: &'static str = "\"say\" is an internal module, not a CLI command. Use node shorthands instead:\n  git forum comment, objection, action  (canonical 2.0)\n  or: git forum node add <THREAD> --type <TYPE> \"body\"";

pub const REVISE_BODY_HINT: &'static str = "use `git forum revise <THREAD_ID>` to revise a thread body, or `git forum revise node <NODE_ID> <THREAD_ID>` to revise a node";

pub const CREATE_HINT: &'static str = "use `git forum new <kind> \"title\"` to create a thread";

pub const ADD_HINT: &'static str = "use `git forum node add <THREAD> --type <TYPE> \"body\"` to add a node";

/// The hint shown for a subcommand that does not exist: kind-prefixed
/// groupings, `say`, `revise-body`, `create` and `add` each get one.
pub open spec fn hint_for(sub: Seq<char>) -> Option<Seq<char>> {
    if sub == "rfc"@ || sub == "issue"@ || sub == "ask"@ || sub == "dec"@ || sub == "task"@ || sub == "job"@ {
        Some(KIND_GROUPING_HINT@)
    } else if sub == "say"@ {
        Some(SAY_HINT@)
    } else if sub == "revise-body"@ {
        Some(REVISE_BODY_HINT@)
    } else if sub == "create"@ {
        Some(CREATE_HINT@)
    } else if sub == "add"@ {
        Some(ADD_HINT@)
    } else {
        None
    }
}

/// A custom hint for known unrecognized subcommands.
pub fn subcommand_hint(sub: &str) -> (r: Option<&'static str>)
    ensures
        match r {
            Some(h) => hint_for(sub@) == Some(h@),
            None => hint_for(sub@) is None,
        },
{
    if str_eq(sub, "rfc") || str_eq(sub, "issue") || str_eq(sub, "ask") || str_eq(sub, "dec")
        || str_eq(sub, "task") || str_eq(sub, "job") {
        Some(KIND_GROUPING_HINT)
    } else if str_eq(sub, "say") {
        Some(SAY_HINT)
    } else if str_eq(sub, "revise-body") {
        Some(REVISE_BODY_HINT)
    } else if str_eq(sub, "create") {
        Some(CREATE_HINT)
    } else if str_eq(sub, "add") {
        Some(ADD_HINT)
    } else {
        None
    }
}

// ---------------------------------------------------------------------------
// `--since` dates
// ---------------------------------------------------------------------------

/// The instant chrono reads from `s` as a `%Y-%m-%d` date, taken at
/// midnight UTC; `None` when `s` is not such a date.
pub uninterp spec fn ymd_midnight(s: Seq<char>) -> Option<Timestamp>;

/// What chrono reads from `s` as an RFC 3339 date and time: the instant
/// in UTC, or chrono's message when `s` is not one.
pub uninterp spec fn rfc3339_parse(s: Seq<char>) -> Result<Timestamp, Seq<char>>;

/// `chrono::NaiveDate::parse_from_str(s, "%Y-%m-%d")`, then midnight of
/// that day in UTC as seconds since the epoch. Only that the result is a
/// function of `s` is claimed.
#[verifier::external_body]
fn parse_ymd(s: &str) -> (r: Option<Timestamp>)
    ensures
        r == ymd_midnight(s@),
{
    match chrono::NaiveDate::parse_from_str(s, "%Y-%m-%d") {
        Ok(d) => Some(Timestamp { secs: d.and_time(chrono::NaiveTime::MIN).and_utc().timestamp(), nanos: 0 }),
        Err(_) => None,
    }
}

/// `chrono::DateTime::parse_from_rfc3339(s)`: the instant as seconds
/// since the epoch and sub-second nanoseconds, or the error's text. Only
/// that the result is a function of `s` is claimed.
#[verifier::external_body]
fn parse_rfc3339(s: &str) -> (r: Result<Timestamp, String>)
    ensures
        match r {
            Ok(t) => rfc3339_parse(s@) == Ok::<Timestamp, Seq<char>>(t),
            Err(m) => rfc3339_parse(s@) == Err::<Timestamp, Seq<char>>(m@),
        },
{
    match chrono::DateTime::parse_from_rfc3339(s) {
        Ok(dt) => Ok(Timestamp { secs: dt.timestamp(), nanos: dt.timestamp_subsec_nanos() }),
        Err(e) => Err(e.to_string()),
    }
}

/// A `--since` value read as a date: an ISO `YYYY-MM-DD` day at midnight
/// UTC, else an RFC 3339 instant; `None` when it is neither (the caller
/// then asks git to read it as a revision).
pub fn since_date(since: &str) -> (r: Option<Timestamp>)
    ensures
        r == match ymd_midnight(since@) {
            Some(t) => Some(t),
            None => match rfc3339_parse(since@) {
                Ok(t) => Some(t),
                Err(_) => None,
            },
        },
{
    match parse_ymd(since) {
        Some(t) => Some(t),
        None => match parse_rfc3339(since) {
            Ok(t) => Some(t),
            Err(_) => None,
        },
    }
}

/// The instant of a commit from its `git log --format=%aI` output: the
/// trimmed text read as RFC 3339, else a git error naming `rev` with
/// chrono's message.
pub fn commit_instant(rev: &str, iso: &str) -> (r: Result<Timestamp, ForumError>)
    ensures
        match rfc3339_parse(crate::text::trim(iso@)) {
            Ok(t) => r == Ok::<Timestamp, ForumError>(t),
            Err(m) => r matches Err(ForumError::Git(x)) && x@ == "cannot parse timestamp for '"@ + rev@ + "': "@ + m,
        },
{
    let cs = chars_of(iso);
    let t = crate::text::trim_chars(cs.as_slice());
    let ts = string_of(t.as_slice());
    match parse_rfc3339(ts.as_str()) {
        Ok(x) => Ok(x),
        Err(m) => {
            let mut v = chars_of("cannot parse timestamp for '");
            push_str(&mut v, rev);
            push_str(&mut v, "': ");
            push_str(&mut v, m.as_str());
            Err(ForumError::Git(string_of(v.as_slice())))
        },
    }
}

} // verus!
