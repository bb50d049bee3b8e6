//! `git forum state` over several threads: which threads a selection
//! names, and the report of what happened to each.

use vstd::prelude::*;

use crate::internal::error::ForumError;
use crate::internal::event::{normalize_name, normalize_state_name, status_from_name_lenient, ThreadStatus};
use crate::internal::policy::{kind_label, kind_label_for};
use crate::internal::thread::ThreadState;
use crate::text::{
    append_chars, chars_of, pad_right, pad_right_exec, push_str, str_eq, string_from, string_of, strs,
};

verus! {

#[derive(Debug, Clone)]
pub struct BulkArgs {
    pub thread_ids: Vec<String>,
    pub branch: Option<String>,
    /// A canonical preset name (`rfc`, `dec`, `task`, `issue`), matched
    /// against the kind label of each thread.
    pub kind: Option<&'static str>,
    pub status: Option<String>,
    pub new_state: String,
    pub approve: Vec<String>,
    pub as_actor: Option<String>,
    pub resolve_open_actions: bool,
    pub dry_run: bool,
}

/// The filters that select threads besides explicit IDs.
pub struct BulkSelectors<'a> {
    pub branch: Option<&'a str>,
    pub kind: Option<&'static str>,
    pub status: Option<&'a str>,
}

/// What happened to one thread.
#[derive(Debug, Clone)]
pub struct BulkStateOutcome {
    pub thread_id: String,
    pub from_state: String,
    pub to_state: String,
    pub ok: bool,
    pub dry_run: bool,
    pub detail: Option<String>,
}

#[derive(Debug, Clone)]
pub struct BulkStateReport {
    pub outcomes: Vec<BulkStateOutcome>,
    pub failures: usize,
}

/// A thread passes the filters: each filter that is set matches (the kind
/// against the thread's kind label, the branch against its bound branch,
/// the status exactly).
pub open spec fn matches_filters(
    s: ThreadState,
    kind: Option<Seq<char>>,
    branch: Option<Seq<char>>,
    status: Option<Seq<char>>,
) -> bool {
    &&& (kind matches Some(k) ==> kind_label(s.category@, strs(s.tags@)) == k)
    &&& (branch matches Some(b) ==> (s.branch matches Some(sb) && sb@ == b))
    &&& (status matches Some(st) ==> s.status@ == st)
}

pub open spec fn opt_str(o: Option<&str>) -> Option<Seq<char>> {
    match o {
        Some(s) => Some(s@),
        None => None,
    }
}

/// Whether `state` passes the selection filters (see [`matches_filters`]).
pub fn thread_matches_filters(
    state: &ThreadState,
    kind: Option<&'static str>,
    branch: Option<&str>,
    status: Option<&str>,
) -> (r: bool)
    ensures
        r == matches_filters(*state, opt_str(kind), opt_str(branch), opt_str(status)),
{
    let kind_ok = match kind {
        Some(k) => str_eq(kind_label_for(state.category.as_str(), state.tags.as_slice()), k),
        None => true,
    };
    let branch_ok = match branch {
        Some(b) => match &state.branch {
            Some(sb) => str_eq(sb.as_str(), b),
            None => false,
        },
        None => true,
    };
    let status_ok = match status {
        Some(st) => str_eq(state.status.as_str(), st),
        None => true,
    };
    kind_ok && branch_ok && status_ok
}

/// A bulk change needs at least one explicit thread ID or selector;
/// `Err` otherwise.
pub fn check_bulk_selection(explicit_ids: &[String], selectors: &BulkSelectors) -> (r: Result<(), ForumError>)
    ensures
        r is Ok <==> (explicit_ids@.len() > 0 || selectors.branch is Some || selectors.kind is Some
            || selectors.status is Some),
        r matches Err(e) ==> e == ForumError::Config(e->Config_0) && e->Config_0@
            == "state bulk requires at least one THREAD_ID or selector (--branch/--kind/--status)"@,
{
    if explicit_ids.len() == 0 && selectors.branch.is_none() && selectors.kind.is_none()
        && selectors.status.is_none() {
        Err(
            ForumError::Config(
                crate::text::string_from(
                    "state bulk requires at least one THREAD_ID or selector (--branch/--kind/--status)",
                ),
            ),
        )
    } else {
        Ok(())
    }
}

// ---------------------------------------------------------------------------
// One thread of a bulk change
// ---------------------------------------------------------------------------

/// A status name in canonical form when it names a known status (older
/// synonyms included), else unchanged.
pub open spec fn canonical_status(s: Seq<char>) -> Seq<char> {
    if status_from_name_lenient(s) is Some {
        normalize_name(s)
    } else {
        s
    }
}

fn canonical_status_exec(s: &str) -> (r: &str)
    ensures
        r@ == canonical_status(s@),
{
    let n = normalize_state_name(s);
    match ThreadStatus::parse(n) {
        Some(_) => n,
        None => s,
    }
}

/// An outcome with exactly these fields.
pub open spec fn outcome_is(
    o: BulkStateOutcome,
    thread_id: Seq<char>,
    from: Seq<char>,
    to: Seq<char>,
    ok: bool,
    dry_run: bool,
    detail: Option<Seq<char>>,
) -> bool {
    &&& o.thread_id@ == thread_id
    &&& o.from_state@ == from
    &&& o.to_state@ == to
    &&& o.ok == ok
    &&& o.dry_run == dry_run
    &&& match (o.detail, detail) {
        (Some(a), Some(b)) => a@ == b,
        (None, None) => true,
        _ => false,
    }
}

/// What a bulk change does with one candidate thread.
pub enum BulkStep {
    /// The thread does not pass the selectors.
    Skip,
    /// Recorded without changing the thread.
    Done(BulkStateOutcome),
    /// Apply the change, then record it with [`applied_outcome`].
    Apply,
}

/// The rule for one candidate: a thread that could not be read fails; one
/// that does not pass the selectors is skipped; one already in the target
/// state (after canonicalizing both names) is reported unchanged; in a
/// dry run the change is reported as it would be; else it is applied.
pub open spec fn bulk_step_rule(
    thread_id: Seq<char>,
    replayed: Result<ThreadState, Seq<char>>,
    sel: (Option<Seq<char>>, Option<Seq<char>>, Option<Seq<char>>),
    new_state: Seq<char>,
    dry_run: bool,
    r: BulkStep,
) -> bool {
    match replayed {
        Err(m) => r matches BulkStep::Done(o) && outcome_is(o, thread_id, "?"@, new_state, false, dry_run, Some(m)),
        Ok(st) => if !matches_filters(st, sel.0, sel.1, sel.2) {
            r is Skip
        } else if canonical_status(st.status@) == canonical_status(new_state) {
            r matches BulkStep::Done(o) && outcome_is(
                o,
                thread_id,
                st.status@,
                new_state,
                true,
                dry_run,
                Some("already in '"@ + canonical_status(new_state) + "'; no transition recorded"@),
            )
        } else if dry_run {
            r matches BulkStep::Done(o) && outcome_is(o, thread_id, st.status@, new_state, true, dry_run, None)
        } else {
            r is Apply
        },
    }
}

pub open spec fn res_view(r: Result<&ThreadState, String>) -> Result<ThreadState, Seq<char>> {
    match r {
        Ok(s) => Ok(*s),
        Err(m) => Err(m@),
    }
}

/// Decide what to do with one candidate thread (see [`bulk_step_rule`]);
/// `replayed` is the thread read back, or the message of the read error.
pub fn plan_bulk_thread(
    thread_id: &str,
    replayed: Result<&ThreadState, String>,
    selectors: &BulkSelectors,
    new_state: &str,
    dry_run: bool,
) -> (r: BulkStep)
    ensures
        bulk_step_rule(
            thread_id@,
            res_view(replayed),
            (opt_str(selectors.kind), opt_str(selectors.branch), opt_str(selectors.status)),
            new_state@,
            dry_run,
            r,
        ),
{
    let state = match replayed {
        Err(m) => {
            return BulkStep::Done(
                BulkStateOutcome {
                    thread_id: string_from(thread_id),
                    from_state: string_from("?"),
                    to_state: string_from(new_state),
                    ok: false,
                    dry_run,
                    detail: Some(m),
                },
            );
        },
        Ok(s) => s,
    };
    if !thread_matches_filters(state, selectors.kind, selectors.branch, selectors.status) {
        return BulkStep::Skip;
    }
    let target = canonical_status_exec(new_state);
    let current = canonical_status_exec(state.status.as_str());
    if str_eq(current, target) {
        let mut d = chars_of("already in '");
        push_str(&mut d, target);
        push_str(&mut d, "'; no transition recorded");
        return BulkStep::Done(
            BulkStateOutcome {
                thread_id: string_from(thread_id),
                from_state: string_from(state.status.as_str()),
                to_state: string_from(new_state),
                ok: true,
                dry_run,
                detail: Some(string_of(d.as_slice())),
            },
        );
    }
    if dry_run {
        return BulkStep::Done(
            BulkStateOutcome {
                thread_id: string_from(thread_id),
                from_state: string_from(state.status.as_str()),
                to_state: string_from(new_state),
                ok: true,
                dry_run,
                detail: None,
            },
        );
    }
    BulkStep::Apply
}

/// The outcome of an applied change: the states it went between, or the
/// thread's state and the error's message when it failed.
pub fn applied_outcome(
    thread_id: &str,
    current_status: &str,
    new_state: &str,
    dry_run: bool,
    result: Result<(String, String), String>,
) -> (r: BulkStateOutcome)
    ensures
        match result {
            Ok((from, to)) => outcome_is(r, thread_id@, from@, to@, true, dry_run, None),
            Err(m) => outcome_is(r, thread_id@, current_status@, new_state@, false, dry_run, Some(m@)),
        },
{
    match result {
        Ok((from, to)) => BulkStateOutcome {
            thread_id: string_from(thread_id),
            from_state: from,
            to_state: to,
            ok: true,
            dry_run,
            detail: None,
        },
        Err(m) => BulkStateOutcome {
            thread_id: string_from(thread_id),
            from_state: string_from(current_status),
            to_state: string_from(new_state),
            ok: false,
            dry_run,
            detail: Some(m),
        },
    }
}

/// How many outcomes failed.
pub open spec fn failed_count(os: Seq<BulkStateOutcome>) -> nat
    decreases os.len(),
{
    if os.len() == 0 {
        0
    } else {
        failed_count(os.drop_last()) + if os.last().ok { 0nat } else { 1nat }
    }
}

/// The report of a bulk change: an error when no thread matched, else the
/// outcomes and how many failed.
pub fn finish_bulk(outcomes: Vec<BulkStateOutcome>) -> (r: Result<BulkStateReport, ForumError>)
    ensures
        outcomes@.len() == 0 <==> r is Err,
        r matches Err(e) ==> e == ForumError::Config(e->Config_0) && e->Config_0@
            == "state bulk matched no threads for the given selectors"@,
        r matches Ok(rep) ==> rep.outcomes@ == outcomes@ && rep.failures == failed_count(outcomes@),
{
    if outcomes.len() == 0 {
        return Err(ForumError::Config(string_from("state bulk matched no threads for the given selectors")));
    }
    let mut failures: usize = 0;
    let mut i: usize = 0;
    while i < outcomes.len()
        invariant
            i <= outcomes@.len(),
            failures == failed_count(outcomes@.take(i as int)),
            failures <= i,
        decreases outcomes@.len() - i,
    {
        proof {
            assert(outcomes@.take(i + 1).drop_last() =~= outcomes@.take(i as int));
        }
        if !outcomes[i].ok {
            failures = failures + 1;
        }
        i += 1;
    }
    proof {
        assert(outcomes@.take(i as int) =~= outcomes@);
    }
    Ok(BulkStateReport { outcomes, failures })
}

pub open spec fn outcome_marker(o: BulkStateOutcome) -> Seq<char> {
    if !o.dry_run {
        if o.ok {
            "OK"@
        } else {
            "FAIL"@
        }
    } else if o.ok {
        "WOULD-OK"@
    } else {
        "WOULD-FAIL"@
    }
}

/// One report line: the marker padded to 10, the thread padded to 12,
/// `from -> to`, and two spaces and the detail when there is one.
pub open spec fn outcome_line(o: BulkStateOutcome) -> Seq<char> {
    pad_right(outcome_marker(o), 10) + " "@ + pad_right(o.thread_id@, 12) + " "@ + o.from_state@ + " -> "@
        + o.to_state@ + match o.detail {
        Some(d) => "  "@ + d@,
        None => Seq::<char>::empty(),
    } + "\n"@
}

pub open spec fn report_lines(os: Seq<BulkStateOutcome>) -> Seq<char>
    decreases os.len(),
{
    if os.len() == 0 {
        Seq::<char>::empty()
    } else {
        report_lines(os.drop_last()) + outcome_line(os.last())
    }
}

fn marker_exec(o: &BulkStateOutcome) -> (r: &'static str)
    ensures
        r@ == outcome_marker(*o),
{
    if !o.dry_run {
        if o.ok {
            "OK"
        } else {
            "FAIL"
        }
    } else if o.ok {
        "WOULD-OK"
    } else {
        "WOULD-FAIL"
    }
}

fn outcome_line_exec(o: &BulkStateOutcome) -> (r: Vec<char>)
    ensures
        r@ == outcome_line(*o),
{
    let m = chars_of(marker_exec(o));
    let mut out = pad_right_exec(m.as_slice(), 10);
    push_str(&mut out, " ");
    let t = chars_of(o.thread_id.as_str());
    let pt = pad_right_exec(t.as_slice(), 12);
    append_chars(&mut out, pt.as_slice());
    push_str(&mut out, " ");
    push_str(&mut out, o.from_state.as_str());
    push_str(&mut out, " -> ");
    push_str(&mut out, o.to_state.as_str());
    match &o.detail {
        Some(d) => {
            push_str(&mut out, "  ");
            push_str(&mut out, d.as_str());
        },
        None => {},
    }
    push_str(&mut out, "\n");
    out
}

/// The printed report of a bulk change, one line per outcome.
pub fn render_bulk_report(report: &BulkStateReport) -> (r: String)
    ensures
        r@ == report_lines(report.outcomes@),
{
    let os = &report.outcomes;
    let mut out: Vec<char> = Vec::new();
    let mut i: usize = 0;
    while i < os.len()
        invariant
            i <= os@.len(),
            out@ == report_lines(os@.take(i as int)),
        decreases os@.len() - i,
    {
        proof {
            assert(os@.take(i + 1).drop_last() =~= os@.take(i as int));
        }
        let line = outcome_line_exec(&os[i]);
        append_chars(&mut out, line.as_slice());
        i += 1;
    }
    proof {
        assert(os@.take(i as int) =~= os@);
    }
    string_of(out.as_slice())
}

} // verus!
