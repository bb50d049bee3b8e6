//! The `doctor` command's report model.

use vstd::prelude::*;

use crate::internal::commands::hook::FixIndexResult;
use crate::internal::toml_doc::{
    pair_views, parse_toml_table, toml_array_pairs, toml_string_field, toml_table_array_pairs,
    toml_table_error, toml_top_string,
};
use crate::internal::commands::migrate::{bare_token, bare_token_for};
use crate::text::{no_dups, sorted_distinct, sorted_lex, str_eq};
use crate::text::{
    append_chars, chars_of, decimal, join, join_to_string, lines, lines_of, push_str, push_usize,
    starts_with, starts_with_exec, string_from, string_of, strs, trim, trim_chars, views,
};

verus! {

#[derive(Debug, Clone, Copy, PartialEq, Eq, Structural)]
pub enum CheckLevel {
    /// Healthy.
    Pass,
    /// Informational: never fails the run.
    Info,
    Warn,
    Fail,
}

pub struct DoctorReport {
    pub checks: Vec<DoctorCheck>,
    /// Informational cross-thread observations; they never affect
    /// `all_passed`.
    pub advisories: Vec<String>,
}

pub struct DoctorCheck {
    pub name: String,
    pub level: CheckLevel,
    pub detail: Option<String>,
}

impl DoctorCheck {
    /// True unless the check failed (info and warnings pass).
    pub fn passed(&self) -> (r: bool)
        ensures
            r == (self.level != CheckLevel::Fail),
    {
        self.level != CheckLevel::Fail
    }
}

impl DoctorReport {
    /// True when no check failed; advisories never count.
    pub fn all_passed(&self) -> (r: bool)
        ensures
            r == (forall|i: int| 0 <= i < self.checks@.len() ==> #[trigger] self.checks@[i].level != CheckLevel::Fail),
    {
        let mut i: usize = 0;
        while i < self.checks.len()
            invariant
                i <= self.checks@.len(),
                forall|j: int| 0 <= j < i ==> #[trigger] self.checks@[j].level != CheckLevel::Fail,
            decreases self.checks@.len() - i,
        {
            if !self.checks[i].passed() {
                return false;
            }
            i += 1;
        }
        true
    }
}

/// Arguments of `git forum doctor`.
pub struct DoctorArgs {
    /// Also print the checks that passed.
    pub verbose: bool,
    /// Also report conditions that lenient replay skips silently.
    pub strict: bool,
}

// ---------------------------------------------------------------------------
// The printed report
// ---------------------------------------------------------------------------

/// A per-thread replay check (its name starts with `replay `).
pub open spec fn is_replay(c: DoctorCheck) -> bool {
    starts_with(c.name@, "replay "@)
}

pub open spec fn marker(l: CheckLevel) -> Seq<char> {
    match l {
        CheckLevel::Pass => " ok "@,
        CheckLevel::Info => "INFO"@,
        CheckLevel::Warn => "WARN"@,
        CheckLevel::Fail => "FAIL"@,
    }
}

/// The line of a check other than a replay: `[MARK] name`, then
/// ` -- detail` when there is one.
pub open spec fn check_line(c: DoctorCheck) -> Seq<char> {
    "["@ + marker(c.level) + "] "@ + c.name@ + match c.detail {
        Some(d) => " -- "@ + d@,
        None => Seq::<char>::empty(),
    } + "\n"@
}

/// The lines of the checks other than replays: those not passed, and in
/// verbose mode those passed too.
pub open spec fn check_lines(cs: Seq<DoctorCheck>, verbose: bool) -> Seq<char>
    decreases cs.len(),
{
    if cs.len() == 0 {
        Seq::<char>::empty()
    } else {
        let c = cs.last();
        check_lines(cs.drop_last(), verbose) + if !is_replay(c) && (c.level != CheckLevel::Pass || verbose) {
            check_line(c)
        } else {
            Seq::<char>::empty()
        }
    }
}

/// How many checks have level `l` (replays included).
pub open spec fn level_count(cs: Seq<DoctorCheck>, l: CheckLevel) -> nat
    decreases cs.len(),
{
    if cs.len() == 0 {
        0
    } else {
        level_count(cs.drop_last(), l) + if cs.last().level == l { 1nat } else { 0nat }
    }
}

/// How many replay checks passed.
pub open spec fn replay_ok_count(cs: Seq<DoctorCheck>) -> nat
    decreases cs.len(),
{
    if cs.len() == 0 {
        0
    } else {
        replay_ok_count(cs.drop_last()) + if is_replay(cs.last()) && cs.last().level == CheckLevel::Pass {
            1nat
        } else {
            0nat
        }
    }
}

/// The lines of the replay checks that did not pass, each marked FAIL.
pub open spec fn replay_fail_lines(cs: Seq<DoctorCheck>) -> Seq<char>
    decreases cs.len(),
{
    if cs.len() == 0 {
        Seq::<char>::empty()
    } else {
        let c = cs.last();
        replay_fail_lines(cs.drop_last()) + if is_replay(c) && c.level != CheckLevel::Pass {
            "[FAIL] "@ + c.name@ + " -- "@ + match c.detail {
                Some(d) => d@,
                None => "unknown error"@,
            } + "\n"@
        } else {
            Seq::<char>::empty()
        }
    }
}

/// How many replay checks did not pass.
pub open spec fn replay_fail_count(cs: Seq<DoctorCheck>) -> nat
    decreases cs.len(),
{
    if cs.len() == 0 {
        0
    } else {
        replay_fail_count(cs.drop_last()) + if is_replay(cs.last()) && cs.last().level != CheckLevel::Pass {
            1nat
        } else {
            0nat
        }
    }
}

/// The replay summary: one line when all replays passed, else each failed
/// replay and then the count of the others that passed.
pub open spec fn replay_block(cs: Seq<DoctorCheck>) -> Seq<char> {
    let ok = replay_ok_count(cs);
    if ok + replay_fail_count(cs) == 0 {
        Seq::<char>::empty()
    } else if replay_fail_count(cs) == 0 {
        "[ ok ] replay: "@ + decimal(ok) + " threads replayed successfully\n"@
    } else {
        replay_fail_lines(cs) + if ok > 0 {
            "[ ok ] replay: "@ + decimal(ok) + " other threads ok\n"@
        } else {
            Seq::<char>::empty()
        }
    }
}

pub open spec fn advisory_lines(a: Seq<String>) -> Seq<char>
    decreases a.len(),
{
    if a.len() == 0 {
        Seq::<char>::empty()
    } else {
        advisory_lines(a.drop_last()) + "[ADV ] "@ + a.last()@ + "\n"@
    }
}

/// `n label`, or nothing when `n` is 0.
pub open spec fn count_part(n: nat, label: Seq<char>) -> Seq<Seq<char>> {
    if n > 0 {
        seq![decimal(n) + " "@ + label]
    } else {
        seq![]
    }
}

/// The closing tally: all passed, or the non-zero counts of failed,
/// warning and passed checks.
pub open spec fn tally_line(fails: nat, warns: nat, oks: nat) -> Seq<char> {
    if fails == 0 && warns == 0 {
        "All "@ + decimal(oks) + " checks passed.\n"@
    } else {
        crate::text::join(
            count_part(fails, "failed"@) + count_part(warns, "warning"@) + count_part(oks, "passed"@),
            ", "@,
        ) + "\n"@
    }
}

proof fn lemma_level_count_positive(cs: Seq<DoctorCheck>, l: CheckLevel)
    ensures
        level_count(cs, l) > 0 <==> exists|i: int| 0 <= i < cs.len() && (#[trigger] cs[i]).level == l,
    decreases cs.len(),
{
    if cs.len() > 0 {
        let p = cs.drop_last();
        lemma_level_count_positive(p, l);
        if exists|i: int| 0 <= i < p.len() && (#[trigger] p[i]).level == l {
            let i = choose|i: int| 0 <= i < p.len() && (#[trigger] p[i]).level == l;
            assert(cs[i] == p[i]);
        }
        if exists|i: int| 0 <= i < cs.len() && (#[trigger] cs[i]).level == l {
            let i = choose|i: int| 0 <= i < cs.len() && (#[trigger] cs[i]).level == l;
            if i < p.len() {
                assert(p[i] == cs[i]);
            }
        }
    }
}

proof fn lemma_join_ends_with_last(ps: Seq<Seq<char>>, sep: Seq<char>)
    requires
        ps.len() > 0,
    ensures
        crate::text::join(ps, sep).len() >= ps.last().len(),
        crate::text::join(ps, sep).skip(crate::text::join(ps, sep).len() - ps.last().len()) == ps.last(),
{
    let j = crate::text::join(ps, sep);
    if ps.len() == 1 {
        assert(j == ps[0]);
        assert(j.skip(0) =~= j);
    } else {
        let pre = crate::text::join(ps.drop_last(), sep) + sep;
        assert(j == pre + ps.last());
        assert(j.skip(pre.len() as int) =~= ps.last());
    }
}

/// Law: every check has exactly one level, so the counts of the four
/// levels add up to the number of checks.
pub proof fn lemma_level_counts_total(cs: Seq<DoctorCheck>)
    ensures
        level_count(cs, CheckLevel::Pass) + level_count(cs, CheckLevel::Info) + level_count(cs, CheckLevel::Warn)
            + level_count(cs, CheckLevel::Fail) == cs.len(),
    decreases cs.len(),
{
    if cs.len() > 0 {
        lemma_level_counts_total(cs.drop_last());
    }
}

/// The text ends with `x`.
pub open spec fn ends_with(t: Seq<char>, x: Seq<char>) -> bool {
    t.len() >= x.len() && t.skip(t.len() - x.len()) == x
}

/// Law of [`render_doctor_report`]: the report closes with
/// `All <n> checks passed.` (n the passing checks) when no check warned
/// or failed; when one did, its closing line does not end with a `.` (it
/// lists the counts instead). Warnings never count as all passed.
pub proof fn lemma_report_tally(r: DoctorReport, verbose: bool)
    ensures
        (forall|i: int| 0 <= i < r.checks@.len() ==> (#[trigger] r.checks@[i]).level != CheckLevel::Warn
            && r.checks@[i].level != CheckLevel::Fail) ==> ends_with(
            report_text(r, verbose),
            "All "@ + decimal(level_count(r.checks@, CheckLevel::Pass)) + " checks passed.\n"@,
        ),
        (exists|i: int| 0 <= i < r.checks@.len() && ((#[trigger] r.checks@[i]).level == CheckLevel::Warn
            || r.checks@[i].level == CheckLevel::Fail)) ==> {
            let t = report_text(r, verbose);
            t.len() >= 2 && t[t.len() - 1] == '\n' && t[t.len() - 2] != '.'
        },
{
    let cs = r.checks@;
    let t = report_text(r, verbose);
    let f = level_count(cs, CheckLevel::Fail);
    let w = level_count(cs, CheckLevel::Warn);
    let o = level_count(cs, CheckLevel::Pass);
    lemma_level_count_positive(cs, CheckLevel::Fail);
    lemma_level_count_positive(cs, CheckLevel::Warn);
    let pre = check_lines(cs, verbose) + replay_block(cs) + advisory_lines(r.advisories@) + "\n"@;
    let tl = tally_line(f, w, o);
    assert(t == pre + tl);
    if f == 0 && w == 0 {
        assert(t.skip(t.len() - tl.len()) =~= tl);
    }
    if exists|i: int| 0 <= i < cs.len() && ((#[trigger] cs[i]).level == CheckLevel::Warn || cs[i].level == CheckLevel::Fail) {
        let i = choose|i: int| 0 <= i < cs.len() && ((#[trigger] cs[i]).level == CheckLevel::Warn || cs[i].level == CheckLevel::Fail);
        assert(f > 0 || w > 0);
        let parts = count_part(f, "failed"@) + count_part(w, "warning"@) + count_part(o, "passed"@);
        let label = if o > 0 { "passed"@ } else if w > 0 { "warning"@ } else { "failed"@ };
        let n = if o > 0 { o } else if w > 0 { w } else { f };
        assert(parts.len() > 0);
        assert(parts.last() == decimal(n) + " "@ + label);
        let j = crate::text::join(parts, ", "@);
        lemma_join_ends_with_last(parts, ", "@);
        reveal_strlit("passed");
        reveal_strlit("warning");
        reveal_strlit("failed");
        reveal_strlit("\n");
        assert(label.len() > 0 && label[label.len() - 1] != '.');
        assert(parts.last()[parts.last().len() - 1] == label[label.len() - 1]);
        assert(j[j.len() - 1] == parts.last()[parts.last().len() - 1]) by {
            assert(j.skip(j.len() - parts.last().len())[parts.last().len() - 1] == j[j.len() - 1]);
        }
        assert(tl == j + "\n"@);
        assert(t[t.len() - 1] == tl[tl.len() - 1]);
        assert(t[t.len() - 2] == tl[tl.len() - 2]);
    }
}

/// What `git forum doctor` prints for a report.
pub open spec fn report_text(r: DoctorReport, verbose: bool) -> Seq<char> {
    let cs = r.checks@;
    check_lines(cs, verbose) + replay_block(cs) + advisory_lines(r.advisories@) + "\n"@ + tally_line(
        level_count(cs, CheckLevel::Fail),
        level_count(cs, CheckLevel::Warn),
        level_count(cs, CheckLevel::Pass),
    )
}

fn marker_exec(l: CheckLevel) -> (r: &'static str)
    ensures
        r@ == marker(l),
{
    match l {
        CheckLevel::Pass => " ok ",
        CheckLevel::Info => "INFO",
        CheckLevel::Warn => "WARN",
        CheckLevel::Fail => "FAIL",
    }
}

fn push_count_part(parts: &mut Vec<Vec<char>>, n: usize, label: &str)
    ensures
        crate::text::views(final(parts)@) == crate::text::views(old(parts)@) + count_part(n as nat, label@),
{
    if n > 0 {
        let mut v: Vec<char> = Vec::new();
        push_usize(&mut v, n);
        push_str(&mut v, " ");
        push_str(&mut v, label);
        let ghost before = crate::text::views(parts@);
        parts.push(v);
        proof {
            assert(crate::text::views(parts@) =~= before + count_part(n as nat, label@));
        }
    } else {
        proof {
            assert(crate::text::views(parts@) =~= crate::text::views(parts@) + count_part(n as nat, label@));
        }
    }
}

/// The tallies and texts gathered from the checks, in one pass.
struct Scan {
    main: Vec<char>,
    fails_text: Vec<char>,
    oks: usize,
    warns: usize,
    fails: usize,
    replay_ok: usize,
    replay_bad: usize,
}

#[verifier::rlimit(40)]
fn scan_checks(cs: &Vec<DoctorCheck>, verbose: bool) -> (r: Scan)
    ensures
        r.main@ == check_lines(cs@, verbose),
        r.fails_text@ == replay_fail_lines(cs@),
        r.oks == level_count(cs@, CheckLevel::Pass),
        r.warns == level_count(cs@, CheckLevel::Warn),
        r.fails == level_count(cs@, CheckLevel::Fail),
        r.replay_ok == replay_ok_count(cs@),
        r.replay_bad == replay_fail_count(cs@),
{
    let mut main: Vec<char> = Vec::new();
    let mut fails_text: Vec<char> = Vec::new();
    let mut oks: usize = 0;
    let mut warns: usize = 0;
    let mut fails: usize = 0;
    let mut replay_ok: usize = 0;
    let mut replay_bad: usize = 0;
    let replay_prefix = chars_of("replay ");
    let mut i: usize = 0;
    while i < cs.len()
        invariant
            i <= cs@.len(),
            replay_prefix@ == "replay "@,
            main@ == check_lines(cs@.take(i as int), verbose),
            fails_text@ == replay_fail_lines(cs@.take(i as int)),
            oks == level_count(cs@.take(i as int), CheckLevel::Pass),
            warns == level_count(cs@.take(i as int), CheckLevel::Warn),
            fails == level_count(cs@.take(i as int), CheckLevel::Fail),
            replay_ok == replay_ok_count(cs@.take(i as int)),
            replay_bad == replay_fail_count(cs@.take(i as int)),
            oks <= i,
            warns <= i,
            fails <= i,
            replay_ok <= i,
            replay_bad <= i,
        decreases cs@.len() - i,
    {
        let c = &cs[i];
        proof {
            assert(cs@.take(i + 1).drop_last() =~= cs@.take(i as int));
            assert(cs@.take(i + 1).last() == cs@[i as int]);
        }
        match c.level {
            CheckLevel::Pass => oks = oks + 1,
            CheckLevel::Warn => warns = warns + 1,
            CheckLevel::Fail => fails = fails + 1,
            CheckLevel::Info => {},
        }
        let name = chars_of(c.name.as_str());
        let replay = starts_with_exec(name.as_slice(), replay_prefix.as_slice());
        if replay {
            if c.level == CheckLevel::Pass {
                replay_ok = replay_ok + 1;
            } else {
                replay_bad = replay_bad + 1;
                push_str(&mut fails_text, "[FAIL] ");
                append_chars(&mut fails_text, name.as_slice());
                push_str(&mut fails_text, " -- ");
                match &c.detail {
                    Some(d) => {
                        let dc = chars_of(d.as_str());
                        append_chars(&mut fails_text, dc.as_slice());
                    },
                    None => push_str(&mut fails_text, "unknown error"),
                }
                push_str(&mut fails_text, "\n");
            }
        } else if c.level != CheckLevel::Pass || verbose {
            push_str(&mut main, "[");
            push_str(&mut main, marker_exec(c.level));
            push_str(&mut main, "] ");
            append_chars(&mut main, name.as_slice());
            match &c.detail {
                Some(d) => {
                    push_str(&mut main, " -- ");
                    let dc = chars_of(d.as_str());
                    append_chars(&mut main, dc.as_slice());
                },
                None => {},
            }
            push_str(&mut main, "\n");
        }
        i += 1;
    }
    proof {
        assert(cs@.take(i as int) =~= cs@);
    }
    Scan { main, fails_text, oks, warns, fails, replay_ok, replay_bad }
}

fn push_replay_block(out: &mut Vec<char>, sc: &Scan, Ghost(cs): Ghost<Seq<DoctorCheck>>)
    requires
        sc.fails_text@ == replay_fail_lines(cs),
        sc.replay_ok == replay_ok_count(cs),
        sc.replay_bad == replay_fail_count(cs),
    ensures
        final(out)@ == old(out)@ + replay_block(cs),
{
    if sc.replay_ok > 0 || sc.replay_bad > 0 {
        if sc.replay_bad == 0 {
            push_str(out, "[ ok ] replay: ");
            push_usize(out, sc.replay_ok);
            push_str(out, " threads replayed successfully\n");
        } else {
            append_chars(out, sc.fails_text.as_slice());
            if sc.replay_ok > 0 {
                push_str(out, "[ ok ] replay: ");
                push_usize(out, sc.replay_ok);
                push_str(out, " other threads ok\n");
            }
        }
    }
}

fn push_advisories(out: &mut Vec<char>, adv: &Vec<String>)
    ensures
        final(out)@ == old(out)@ + advisory_lines(adv@),
{
    let mut k: usize = 0;
    let ghost before = out@;
    while k < adv.len()
        invariant
            k <= adv@.len(),
            out@ == before + advisory_lines(adv@.take(k as int)),
        decreases adv@.len() - k,
    {
        proof {
            assert(adv@.take(k + 1).drop_last() =~= adv@.take(k as int));
        }
        push_str(out, "[ADV ] ");
        let a = chars_of(adv[k].as_str());
        append_chars(out, a.as_slice());
        push_str(out, "\n");
        k += 1;
    }
    proof {
        assert(adv@.take(k as int) =~= adv@);
    }
}

fn push_tally(out: &mut Vec<char>, fails: usize, warns: usize, oks: usize)
    ensures
        final(out)@ == old(out)@ + tally_line(fails as nat, warns as nat, oks as nat),
{
    if fails == 0 && warns == 0 {
        push_str(out, "All ");
        push_usize(out, oks);
        push_str(out, " checks passed.\n");
    } else {
        let mut parts: Vec<Vec<char>> = Vec::new();
        push_count_part(&mut parts, fails, "failed");
        push_count_part(&mut parts, warns, "warning");
        push_count_part(&mut parts, oks, "passed");
        let sep = chars_of(", ");
        let j = crate::text::join_chars(&parts, sep.as_slice());
        append_chars(out, j.as_slice());
        push_str(out, "\n");
    }
}

/// Render the doctor report (see [`report_text`]). Replay checks collapse
/// into one summary line unless some failed; other checks are listed when
/// not passed, or always in verbose mode.
pub fn render_doctor_report(report: &DoctorReport, verbose: bool) -> (r: String)
    ensures
        r@ == report_text(*report, verbose),
{
    let sc = scan_checks(&report.checks, verbose);
    let mut out: Vec<char> = Vec::new();
    append_chars(&mut out, sc.main.as_slice());
    push_replay_block(&mut out, &sc, Ghost(report.checks@));
    push_advisories(&mut out, &report.advisories);
    push_str(&mut out, "\n");
    push_tally(&mut out, sc.fails, sc.warns, sc.oks);
    string_of(out.as_slice())
}

// ---------------------------------------------------------------------------
// The checks, from what was found on disk and in git
// ---------------------------------------------------------------------------

/// A check with exactly these fields.
pub open spec fn check_is(c: DoctorCheck, name: Seq<char>, level: CheckLevel, detail: Option<Seq<char>>) -> bool {
    &&& c.name@ == name
    &&& c.level == level
    &&& match (c.detail, detail) {
        (Some(a), Some(b)) => a@ == b,
        (None, None) => true,
        _ => false,
    }
}

fn check(name: String, level: CheckLevel, detail: Option<String>) -> (r: DoctorCheck)
    ensures
        r.name == name,
        r.level == level,
        r.detail == detail,
{
    DoctorCheck { name, level, detail }
}

fn text_of(v: Vec<char>) -> (r: String)
    ensures
        r@ == v@,
{
    string_of(v.as_slice())
}

/// The template files every forum keeps under `.forum/templates/`.
pub open spec fn template_files() -> Seq<Seq<char>> {
    seq!["issue.md"@, "rfc.md"@, "dec.md"@, "task.md"@]
}

pub fn template_file_names() -> (r: Vec<&'static str>)
    ensures
        r@.map_values(|s: &str| s@) == template_files(),
{
    let v = vec!["issue.md", "rfc.md", "dec.md", "task.md"];
    proof {
        assert(v@.map_values(|s: &str| s@) =~= template_files());
    }
    v
}

/// What was found of a file the doctor reads.
pub enum FileState {
    Missing,
    Empty,
    /// Present with content.
    Present,
    /// Present but could not be read (the error's message).
    Unreadable(String),
}

/// The check of one template file: it must exist and not be empty.
pub open spec fn template_check_rule(filename: Seq<char>, f: FileState, c: DoctorCheck) -> bool {
    let name = "template "@ + filename;
    match f {
        FileState::Present => check_is(c, name, CheckLevel::Pass, None),
        FileState::Empty => check_is(c, name, CheckLevel::Fail, Some("file is empty"@)),
        FileState::Unreadable(m) => check_is(c, name, CheckLevel::Fail, Some(m@)),
        FileState::Missing => check_is(
            c,
            name,
            CheckLevel::Fail,
            Some("file not found; create .forum/templates/"@ + filename),
        ),
    }
}

pub fn template_check(filename: &str, f: FileState) -> (r: DoctorCheck)
    ensures
        template_check_rule(filename@, f, r),
{
    let mut n = chars_of("template ");
    push_str(&mut n, filename);
    let name = text_of(n);
    match f {
        FileState::Present => check(name, CheckLevel::Pass, None),
        FileState::Empty => check(name, CheckLevel::Fail, Some(string_from("file is empty"))),
        FileState::Unreadable(m) => check(name, CheckLevel::Fail, Some(m)),
        FileState::Missing => {
            let mut d = chars_of("file not found; create .forum/templates/");
            push_str(&mut d, filename);
            check(name, CheckLevel::Fail, Some(text_of(d)))
        },
    }
}

/// The policy file check: missing fails `policy.toml exists`; present, it
/// must read and parse as TOML (`Invalid` carries the error's message).
pub enum PolicyFile {
    Missing,
    /// It exists but could not be read (the error).
    Unreadable(String),
    /// Its text.
    Text(String),
}

/// The `policy.toml` check: a failure when it is missing or unreadable,
/// else whether its text parses as TOML (see [`toml_table_error`]).
pub fn policy_check(p: PolicyFile) -> (r: DoctorCheck)
    ensures
        (policy_part(p))(r),
{
    match p {
        PolicyFile::Missing => check(string_from("policy.toml exists"), CheckLevel::Fail, Some(string_from("file not found"))),
        PolicyFile::Unreadable(m) => check(string_from("policy.toml valid"), CheckLevel::Fail, Some(m)),
        PolicyFile::Text(t) => match parse_toml_table(t.as_str()) {
            Ok(()) => check(string_from("policy.toml valid"), CheckLevel::Pass, None),
            Err(m) => check(string_from("policy.toml valid"), CheckLevel::Fail, Some(m)),
        },
    }
}

/// A directory that must exist.
pub fn dir_check(name: &str, is_dir: bool) -> (r: DoctorCheck)
    ensures
        is_dir ==> check_is(r, name@, CheckLevel::Pass, None),
        !is_dir ==> check_is(r, name@, CheckLevel::Fail, Some("directory not found"@)),
{
    if is_dir {
        check(string_from(name), CheckLevel::Pass, None)
    } else {
        check(string_from(name), CheckLevel::Fail, Some(string_from("directory not found")))
    }
}

pub open spec fn fresh_clone_detail() -> Seq<char> {
    "this repo has .forum/ config but no local forum state yet; run `git forum init` to register the fetch refspec, fetch refs/forum/*, and create .git/forum/"@
}

/// The warning for a fresh clone: forum configuration is checked in but no
/// local forum state exists yet.
pub fn fresh_clone_check() -> (r: DoctorCheck)
    ensures
        check_is(r, "fresh clone detected"@, CheckLevel::Warn, Some(fresh_clone_detail())),
{
    check(
        string_from("fresh clone detected"),
        CheckLevel::Warn,
        Some(
            string_from(
                "this repo has .forum/ config but no local forum state yet; run `git forum init` to register the fetch refspec, fetch refs/forum/*, and create .git/forum/",
            ),
        ),
    )
}

/// A fresh clone: the policy file is present, there is no local log
/// directory, no thread refs, and at least one remote.
pub fn is_fresh_clone(policy_present: bool, logs_dir_present: bool, has_thread_refs: bool, has_remotes: bool) -> (r: bool)
    ensures
        r == (policy_present && !logs_dir_present && !has_thread_refs && has_remotes),
{
    policy_present && !logs_dir_present && !has_thread_refs && has_remotes
}

/// The `.git/forum/` check: missing is expected on a fresh clone (a
/// warning), a failure otherwise.
pub fn git_forum_dir_check(is_dir: bool, fresh_clone: bool) -> (r: DoctorCheck)
    ensures
        is_dir ==> check_is(r, ".git/forum/ directory"@, CheckLevel::Pass, None),
        !is_dir && fresh_clone ==> check_is(
            r,
            ".git/forum/ directory"@,
            CheckLevel::Warn,
            Some("not yet created; will be created by `git forum init`"@),
        ),
        !is_dir && !fresh_clone ==> check_is(r, ".git/forum/ directory"@, CheckLevel::Fail, Some("directory not found"@)),
{
    if is_dir {
        check(string_from(".git/forum/ directory"), CheckLevel::Pass, None)
    } else if fresh_clone {
        check(
            string_from(".git/forum/ directory"),
            CheckLevel::Warn,
            Some(string_from("not yet created; will be created by `git forum init`")),
        )
    } else {
        check(string_from(".git/forum/ directory"), CheckLevel::Fail, Some(string_from("directory not found")))
    }
}

/// The remotes `git remote` lists: its lines, trimmed, without the empty
/// ones.
pub open spec fn remote_list(ls: Seq<Seq<char>>) -> Seq<Seq<char>>
    decreases ls.len(),
{
    if ls.len() == 0 {
        seq![]
    } else {
        let rest = remote_list(ls.drop_last());
        let t = trim(ls.last());
        if t.len() == 0 {
            rest
        } else {
            rest.push(t)
        }
    }
}

pub fn remote_names(output: &str) -> (r: Vec<String>)
    ensures
        strs(r@) == remote_list(lines(output@)),
{
    let cs = chars_of(output);
    let ls = lines_of(cs.as_slice());
    let mut out: Vec<String> = Vec::new();
    let mut i: usize = 0;
    while i < ls.len()
        invariant
            i <= ls@.len(),
            views(ls@) == lines(output@),
            strs(out@) == remote_list(views(ls@).take(i as int)),
        decreases ls@.len() - i,
    {
        proof {
            assert(views(ls@).take(i + 1).drop_last() =~= views(ls@).take(i as int));
            assert(views(ls@).take(i + 1).last() == ls@[i as int]@);
        }
        let t = trim_chars(ls[i].as_slice());
        if t.len() > 0 {
            let ghost before = strs(out@);
            out.push(string_of(t.as_slice()));
            proof {
                assert(strs(out@) =~= before.push(t@));
            }
        }
        i += 1;
    }
    proof {
        assert(views(ls@).take(i as int) =~= views(ls@));
    }
    out
}

/// The fetch refspec that maps a remote's forum refs onto the local ones.
pub const FORUM_REFSPEC: &'static str = "+refs/forum/*:refs/forum/*";

/// Some line of `git config --get-all remote.<name>.fetch` output is,
/// trimmed, the forum refspec.
pub fn fetch_specs_have_forum(specs: &str) -> (r: bool)
    ensures
        r == exists|i: int| 0 <= i < lines(specs@).len() && trim(#[trigger] lines(specs@)[i]) == FORUM_REFSPEC@,
{
    let cs = chars_of(specs);
    let ls = lines_of(cs.as_slice());
    let mut i: usize = 0;
    while i < ls.len()
        invariant
            i <= ls@.len(),
            views(ls@) == lines(specs@),
            forall|j: int| 0 <= j < i ==> trim(#[trigger] lines(specs@)[j]) != FORUM_REFSPEC@,
        decreases ls@.len() - i,
    {
        proof {
            assert(views(ls@)[i as int] == ls@[i as int]@);
        }
        let t = trim_chars(ls[i].as_slice());
        if crate::text::chars_eq_str(t.as_slice(), FORUM_REFSPEC) {
            return true;
        }
        i += 1;
    }
    false
}

/// Some path of a `git ls-tree --name-only` listing is `thread.toml` or
/// `event.json`: the commit carries forum content.
pub fn tree_has_forum_content(listing: &str) -> (r: bool)
    ensures
        r == exists|i: int|
            0 <= i < lines(listing@).len() && (#[trigger] lines(listing@)[i] == "thread.toml"@ || lines(listing@)[i]
                == "event.json"@),
{
    let cs = chars_of(listing);
    let ls = lines_of(cs.as_slice());
    let mut i: usize = 0;
    while i < ls.len()
        invariant
            i <= ls@.len(),
            views(ls@) == lines(listing@),
            forall|j: int|
                0 <= j < i ==> !(#[trigger] lines(listing@)[j] == "thread.toml"@ || lines(listing@)[j] == "event.json"@),
        decreases ls@.len() - i,
    {
        proof {
            assert(views(ls@)[i as int] == ls@[i as int]@);
        }
        if crate::text::chars_eq_str(ls[i].as_slice(), "thread.toml") || crate::text::chars_eq_str(ls[i].as_slice(), "event.json") {
            return true;
        }
        i += 1;
    }
    false
}

/// The check for a repository without remotes (or whose remotes could
/// not be listed).
pub fn no_remotes_check() -> (r: DoctorCheck)
    ensures
        check_is(r, "forum refspec (no remotes)"@, CheckLevel::Pass, None),
{
    check(string_from("forum refspec (no remotes)"), CheckLevel::Pass, None)
}

/// The fetch-refspec check of one remote: present passes; absent warns
/// with the fix; a failed look warns with its message.
pub fn refspec_check(remote: &str, found: Result<bool, String>) -> (r: DoctorCheck)
    ensures
        match found {
            Ok(true) => check_is(r, "forum refspec ("@ + remote@ + ")"@, CheckLevel::Pass, None),
            Ok(false) => check_is(
                r,
                "forum refspec ("@ + remote@ + ")"@,
                CheckLevel::Warn,
                Some("remote '"@ + remote@ + "' lacks refs/forum/* fetch refspec; run `git forum init` to fix"@),
            ),
            Err(m) => check_is(r, "forum refspec ("@ + remote@ + ")"@, CheckLevel::Warn, Some("could not check: "@ + m@)),
        },
{
    let mut n = chars_of("forum refspec (");
    push_str(&mut n, remote);
    push_str(&mut n, ")");
    let name = text_of(n);
    match found {
        Ok(true) => check(name, CheckLevel::Pass, None),
        Ok(false) => {
            let mut d = chars_of("remote '");
            push_str(&mut d, remote);
            push_str(&mut d, "' lacks refs/forum/* fetch refspec; run `git forum init` to fix");
            check(name, CheckLevel::Warn, Some(text_of(d)))
        },
        Err(m) => {
            let mut d = chars_of("could not check: ");
            push_str(&mut d, m.as_str());
            check(name, CheckLevel::Warn, Some(text_of(d)))
        },
    }
}

/// The thread-refs count, or a failure when they could not be listed.
pub fn thread_refs_check(count: Option<usize>) -> (r: DoctorCheck)
    ensures
        match count {
            Some(n) => check_is(r, "thread refs: "@ + decimal(n as nat) + " found"@, CheckLevel::Pass, None),
            None => check_is(r, "thread refs"@, CheckLevel::Fail, Some("could not list refs"@)),
        },
{
    match count {
        Some(n) => {
            let mut v = chars_of("thread refs: ");
            push_usize(&mut v, n);
            push_str(&mut v, " found");
            check(text_of(v), CheckLevel::Pass, None)
        },
        None => check(string_from("thread refs"), CheckLevel::Fail, Some(string_from("could not list refs"))),
    }
}

/// The ref a thread lives at.
pub open spec fn thread_ref_name(id: Seq<char>) -> Seq<char> {
    "refs/forum/threads/"@ + id
}

/// What the index database showed.
pub enum IndexDb {
    /// No `index.db` file.
    Missing,
    /// It could not be opened (the error).
    OpenFailed(String),
    /// It opened: the answer of its integrity check, and how many threads
    /// it lists.
    Opened { integrity: Result<String, String>, listed: Result<usize, String> },
}

pub open spec fn integrity_part(integrity: Result<String, String>) -> spec_fn(DoctorCheck) -> bool {
    match integrity {
        Ok(a) => if a@ == "ok"@ {
            is_check("index integrity"@, CheckLevel::Pass, None)
        } else {
            is_check("index integrity"@, CheckLevel::Fail, Some(a@))
        },
        Err(m) => is_check("index integrity"@, CheckLevel::Fail, Some(m@)),
    }
}

pub open spec fn freshness_part(listed: Result<usize, String>, thread_count: nat) -> spec_fn(DoctorCheck) -> bool {
    match listed {
        Ok(n) => if n == thread_count {
            is_check("index freshness: "@ + decimal(n as nat) + " threads indexed"@, CheckLevel::Pass, None)
        } else {
            is_check(
                "index freshness"@,
                CheckLevel::Warn,
                Some(
                    "index has "@ + decimal(n as nat) + " threads but "@ + decimal(thread_count)
                        + " refs exist; run `git forum reindex`"@,
                ),
            )
        },
        Err(m) => is_check("index freshness"@, CheckLevel::Fail, Some(m@)),
    }
}

/// The checks of the index database, one predicate each.
pub open spec fn index_db_parts(db: IndexDb, thread_count: nat) -> Seq<spec_fn(DoctorCheck) -> bool> {
    match db {
        IndexDb::Missing => seq![
            is_check("index database"@, CheckLevel::Warn, Some("not found; run `git forum reindex` to create"@)),
        ],
        IndexDb::OpenFailed(m) => seq![is_check("index integrity"@, CheckLevel::Fail, Some(m@))],
        IndexDb::Opened { integrity, listed } => seq![
            integrity_part(integrity),
            freshness_part(listed, thread_count),
        ],
    }
}

/// The checks of the index database: a warning when there is none, a
/// failure when it does not open; else its integrity, and whether it lists
/// as many threads as there are thread refs (`thread_count`).
pub fn index_db_checks(db: IndexDb, thread_count: usize) -> (r: Vec<DoctorCheck>)
    ensures
        checks_meet(r@, index_db_parts(db, thread_count as nat)),
{
    let mut out: Vec<DoctorCheck> = Vec::new();
    match db {
        IndexDb::Missing => {
            out.push(check(
                string_from("index database"),
                CheckLevel::Warn,
                Some(string_from("not found; run `git forum reindex` to create")),
            ));
        },
        IndexDb::OpenFailed(m) => {
            out.push(check(string_from("index integrity"), CheckLevel::Fail, Some(m)));
        },
        IndexDb::Opened { integrity, listed } => {
            match integrity {
                Ok(a) => {
                    if str_eq(a.as_str(), "ok") {
                        out.push(check(string_from("index integrity"), CheckLevel::Pass, None));
                    } else {
                        out.push(check(string_from("index integrity"), CheckLevel::Fail, Some(a)));
                    }
                },
                Err(m) => {
                    out.push(check(string_from("index integrity"), CheckLevel::Fail, Some(m)));
                },
            }
            match listed {
                Ok(n) => {
                    if n == thread_count {
                        let mut v = chars_of("index freshness: ");
                        push_usize(&mut v, n);
                        push_str(&mut v, " threads indexed");
                        out.push(check(text_of(v), CheckLevel::Pass, None));
                    } else {
                        let mut v = chars_of("index has ");
                        push_usize(&mut v, n);
                        push_str(&mut v, " threads but ");
                        push_usize(&mut v, thread_count);
                        push_str(&mut v, " refs exist; run `git forum reindex`");
                        out.push(check(string_from("index freshness"), CheckLevel::Warn, Some(text_of(v))));
                    }
                },
                Err(m) => {
                    out.push(check(string_from("index freshness"), CheckLevel::Fail, Some(m)));
                },
            }
        },
    }
    out
}

/// The result of reading a thread's snapshot.
pub enum SnapshotRead {
    Decoded,
    /// The thread is still on the older event chain.
    LegacyChain,
    /// Any other error (its message).
    Failed(String),
}

/// The snapshot check of one thread: nothing when it decoded (they are
/// counted), a migration warning for the older event chain, a failure
/// otherwise.
pub fn snapshot_check(thread_id: &str, read: SnapshotRead) -> (r: Option<DoctorCheck>)
    ensures
        read is Decoded ==> r is None,
        read is LegacyChain ==> (r matches Some(c) && check_is(
            c,
            "migrate-required "@ + thread_ref_name(thread_id@),
            CheckLevel::Warn,
            Some("thread is on the legacy event chain; run `git forum migrate`"@),
        )),
        read matches SnapshotRead::Failed(m) ==> (r matches Some(c) && check_is(
            c,
            "snapshot decode "@ + thread_ref_name(thread_id@),
            CheckLevel::Fail,
            Some(m@),
        )),
{
    match read {
        SnapshotRead::Decoded => None,
        SnapshotRead::LegacyChain => {
            let mut n = chars_of("migrate-required ");
            push_str(&mut n, "refs/forum/threads/");
            push_str(&mut n, thread_id);
            proof {
                assert(n@ =~= "migrate-required "@ + thread_ref_name(thread_id@));
            }
            Some(check(text_of(n), CheckLevel::Warn, Some(string_from("thread is on the legacy event chain; run `git forum migrate`"))))
        },
        SnapshotRead::Failed(m) => {
            let mut n = chars_of("snapshot decode ");
            push_str(&mut n, "refs/forum/threads/");
            push_str(&mut n, thread_id);
            proof {
                assert(n@ =~= "snapshot decode "@ + thread_ref_name(thread_id@));
            }
            Some(check(text_of(n), CheckLevel::Fail, Some(m)))
        },
    }
}

/// The count of decoded snapshots, when there is any.
pub fn snapshot_count_check(decoded: u32) -> (r: Option<DoctorCheck>)
    ensures
        decoded == 0 ==> r is None,
        decoded > 0 ==> (r matches Some(c) && check_is(
            c,
            "snapshot integrity: "@ + decimal(decoded as nat) + " thread.toml decoded"@,
            CheckLevel::Pass,
            None,
        )),
{
    if decoded == 0 {
        return None;
    }
    let mut v = chars_of("snapshot integrity: ");
    let d = crate::text::fmt_u64(decoded as u64);
    append_chars(&mut v, d.as_slice());
    push_str(&mut v, " thread.toml decoded");
    Some(check(text_of(v), CheckLevel::Pass, None))
}

pub open spec fn fixed_details(f: Seq<(String, String)>) -> Seq<Seq<char>> {
    Seq::new(f.len(), |i: int| "re-hashed "@ + f[i].0@ + " (was "@ + f[i].1@ + ")"@)
}

pub open spec fn missing_details(w: Seq<(String, String)>) -> Seq<Seq<char>> {
    Seq::new(w.len(), |i: int| w[i].0@ + " missing blob "@ + w[i].1@ + ", no working-tree copy"@)
}

/// The index-blob check: clean passes; blobs re-hashed from the working
/// tree warn; blobs missing with no copy fail; a failed look warns.
pub open spec fn index_blob_rule(res: Result<FixIndexResult, String>, c: DoctorCheck) -> bool {
    match res {
        Err(m) => check_is(c, "index blobs"@, CheckLevel::Warn, Some("could not check: "@ + m@)),
        Ok(f) => if f.fixed@.len() == 0 && f.warnings@.len() == 0 {
            check_is(c, "index blobs"@, CheckLevel::Pass, None)
        } else {
            let details = join(fixed_details(f.fixed@) + missing_details(f.warnings@), "; "@);
            check_is(
                c,
                "index blobs"@,
                if f.warnings@.len() == 0 { CheckLevel::Warn } else { CheckLevel::Fail },
                Some(details),
            )
        },
    }
}

pub fn index_blob_check(res: Result<FixIndexResult, String>) -> (r: DoctorCheck)
    ensures
        index_blob_rule(res, r),
{
    match res {
        Err(m) => {
            let mut d = chars_of("could not check: ");
            push_str(&mut d, m.as_str());
            check(string_from("index blobs"), CheckLevel::Warn, Some(text_of(d)))
        },
        Ok(f) => {
            if f.fixed.len() == 0 && f.warnings.len() == 0 {
                return check(string_from("index blobs"), CheckLevel::Pass, None);
            }
            let mut parts: Vec<Vec<char>> = Vec::new();
            let mut i: usize = 0;
            while i < f.fixed.len()
                invariant
                    i <= f.fixed@.len(),
                    views(parts@) == fixed_details(f.fixed@).take(i as int),
                decreases f.fixed@.len() - i,
            {
                let mut d = chars_of("re-hashed ");
                push_str(&mut d, f.fixed[i].0.as_str());
                push_str(&mut d, " (was ");
                push_str(&mut d, f.fixed[i].1.as_str());
                push_str(&mut d, ")");
                let ghost before = views(parts@);
                proof {
                    assert(d@ == fixed_details(f.fixed@)[i as int]);
                }
                parts.push(d);
                proof {
                    assert(views(parts@) =~= before.push(d@));
                    assert(views(parts@) =~= fixed_details(f.fixed@).take(i + 1));
                }
                i += 1;
            }
            let mut j: usize = 0;
            while j < f.warnings.len()
                invariant
                    j <= f.warnings@.len(),
                    views(parts@) == fixed_details(f.fixed@) + missing_details(f.warnings@).take(j as int),
                decreases f.warnings@.len() - j,
            {
                let mut d = chars_of(f.warnings[j].0.as_str());
                push_str(&mut d, " missing blob ");
                push_str(&mut d, f.warnings[j].1.as_str());
                push_str(&mut d, ", no working-tree copy");
                let ghost before = views(parts@);
                proof {
                    assert(d@ == missing_details(f.warnings@)[j as int]);
                }
                parts.push(d);
                proof {
                    assert(views(parts@) =~= before.push(d@));
                    assert(views(parts@) =~= fixed_details(f.fixed@) + missing_details(f.warnings@).take(j + 1));
                }
                j += 1;
            }
            proof {
                assert(missing_details(f.warnings@).take(j as int) =~= missing_details(f.warnings@));
                assert(fixed_details(f.fixed@).take(f.fixed@.len() as int) =~= fixed_details(f.fixed@));
            }
            let details = join_to_string(&parts, "; ");
            let level = if f.warnings.len() == 0 { CheckLevel::Warn } else { CheckLevel::Fail };
            check(string_from("index blobs"), level, Some(details))
        },
    }
}

/// The replay of one thread: its result and, in strict mode, the issues
/// strict replay found.
pub enum ReplayOutcome {
    Replayed { strict_issues: Vec<String> },
    /// The ref has no usable create event.
    Orphan,
    Failed(String),
}

pub open spec fn replay_checks_rule(thread_id: Seq<char>, o: ReplayOutcome, strict: bool, r: Seq<DoctorCheck>) -> bool {
    let rn = thread_ref_name(thread_id);
    match o {
        ReplayOutcome::Replayed { strict_issues } => {
            let n = if strict { strict_issues@.len() } else { 0 };
            &&& r.len() == 1 + n
            &&& check_is(r[0], "replay "@ + rn, CheckLevel::Pass, None)
            &&& forall|k: int| 0 <= k < n ==> check_is(
                #[trigger] r[k + 1],
                "strict-replay "@ + rn,
                CheckLevel::Fail,
                Some(strict_issues@[k]@),
            )
        },
        ReplayOutcome::Orphan => r.len() == 1 && check_is(
            r[0],
            "orphan ref "@ + rn,
            CheckLevel::Warn,
            Some("ref has no usable create event; run `git forum prune-orphans` to delete"@),
        ),
        ReplayOutcome::Failed(m) => r.len() == 1 && check_is(r[0], "replay "@ + rn, CheckLevel::Fail, Some(m@)),
    }
}

/// The checks for one thread's replay: a pass and, in strict mode, one
/// failure per strict-replay issue; an orphan ref warns with the fix; any
/// other error fails.
pub fn replay_checks(thread_id: &str, o: ReplayOutcome, strict: bool) -> (r: Vec<DoctorCheck>)
    ensures
        replay_checks_rule(thread_id@, o, strict, r@),
{
    let mut rn = chars_of("refs/forum/threads/");
    push_str(&mut rn, thread_id);
    let mut out: Vec<DoctorCheck> = Vec::new();
    match o {
        ReplayOutcome::Replayed { strict_issues } => {
            let mut n = chars_of("replay ");
            append_chars(&mut n, rn.as_slice());
            out.push(check(text_of(n), CheckLevel::Pass, None));
            if strict {
                let mut k: usize = 0;
                while k < strict_issues.len()
                    invariant
                        k <= strict_issues@.len(),
                        rn@ == thread_ref_name(thread_id@),
                        out@.len() == 1 + k,
                        check_is(out@[0], "replay "@ + rn@, CheckLevel::Pass, None),
                        forall|j: int| 0 <= j < k ==> check_is(
                            #[trigger] out@[j + 1],
                            "strict-replay "@ + rn@,
                            CheckLevel::Fail,
                            Some(strict_issues@[j]@),
                        ),
                    decreases strict_issues@.len() - k,
                {
                    let mut sn = chars_of("strict-replay ");
                    append_chars(&mut sn, rn.as_slice());
                    let d = string_from(strict_issues[k].as_str());
                    out.push(check(text_of(sn), CheckLevel::Fail, Some(d)));
                    k += 1;
                }
            }
        },
        ReplayOutcome::Orphan => {
            let mut n = chars_of("orphan ref ");
            append_chars(&mut n, rn.as_slice());
            out.push(
                check(
                    text_of(n),
                    CheckLevel::Warn,
                    Some(string_from("ref has no usable create event; run `git forum prune-orphans` to delete")),
                ),
            );
        },
        ReplayOutcome::Failed(m) => {
            let mut n = chars_of("replay ");
            append_chars(&mut n, rn.as_slice());
            out.push(check(text_of(n), CheckLevel::Fail, Some(m)));
        },
    }
    out
}

// ---------------------------------------------------------------------------
// Cross-thread advisories
// ---------------------------------------------------------------------------

/// A thread as the advisories see it: its ID, its status, and the targets
/// of its `implements` links, in order.
pub struct AdvisoryThread {
    pub id: String,
    pub status: String,
    pub implements: Vec<String>,
}

/// How a thread's snapshot reads: still on the older event chain when its
/// tip holds no `thread.toml`; decoded when that text is a TOML document;
/// else failed with the parser's message.
pub fn snapshot_read(thread_toml: &Option<String>) -> (r: SnapshotRead)
    ensures
        match *thread_toml {
            None => r is LegacyChain,
            Some(t) => match toml_table_error(t@) {
                None => r is Decoded,
                Some(m) => r matches SnapshotRead::Failed(x) && x@ == m,
            },
        },
{
    match thread_toml {
        None => SnapshotRead::LegacyChain,
        Some(t) => match parse_toml_table(t.as_str()) {
            Ok(()) => SnapshotRead::Decoded,
            Err(m) => SnapshotRead::Failed(m),
        },
    }
}

/// The targets of the `implements` links among `(relation, target)`
/// pairs, in order; entries missing either are skipped.
pub open spec fn implements_of(pairs: Seq<(Option<Seq<char>>, Option<Seq<char>>)>) -> Seq<Seq<char>>
    decreases pairs.len(),
{
    if pairs.len() == 0 {
        seq![]
    } else {
        let r = implements_of(pairs.drop_last());
        match pairs.last() {
            (Some(rel), Some(t)) => if rel == "implements"@ {
                r.push(t)
            } else {
                r
            },
            _ => r,
        }
    }
}

/// The targets of the `implements` links among `(relation, target)`
/// pairs (see [`implements_of`]).
pub fn implements_targets(pairs: &Vec<(Option<String>, Option<String>)>) -> (r: Vec<String>)
    ensures
        strs(r@) == implements_of(pair_views(pairs@)),
{
    let mut out: Vec<String> = Vec::new();
    let mut i: usize = 0;
    while i < pairs.len()
        invariant
            i <= pairs@.len(),
            strs(out@) == implements_of(pair_views(pairs@).take(i as int)),
        decreases pairs@.len() - i,
    {
        proof {
            assert(pair_views(pairs@).take(i + 1).drop_last() =~= pair_views(pairs@).take(i as int));
            assert(pair_views(pairs@).take(i + 1).last() == pair_views(pairs@)[i as int]);
        }
        let ghost before = strs(out@);
        match &pairs[i] {
            (Some(rel), Some(t)) => {
                if str_eq(rel.as_str(), "implements") {
                    out.push(string_from(t.as_str()));
                    proof {
                        assert(strs(out@) =~= before.push(t@));
                    }
                }
            },
            _ => {},
        }
        i += 1;
    }
    proof {
        assert(pair_views(pairs@).take(i as int) =~= pair_views(pairs@));
    }
    out
}

/// The thread as the advisories read it: its status from `thread.toml`
/// (empty when there is none), and the targets of the `implements`
/// entries of the `[[links]]` array of `links.toml`.
pub fn advisory_thread(id: &str, thread_toml: &Option<String>, links_toml: &Option<String>) -> (r: AdvisoryThread)
    ensures
        r.id@ == id@,
        r.status@ == match *thread_toml {
            Some(t) => match toml_top_string(t@, "status"@) {
                Some(x) => x,
                None => Seq::<char>::empty(),
            },
            None => Seq::<char>::empty(),
        },
        strs(r.implements@) == match *links_toml {
            Some(l) => implements_of(toml_array_pairs(l@, "links"@, "rel"@, "target"@)),
            None => Seq::<Seq<char>>::empty(),
        },
{
    let status = match thread_toml {
        Some(t) => match toml_string_field(t.as_str(), "status") {
            Some(x) => x,
            None => String::new(),
        },
        None => String::new(),
    };
    let implements = match links_toml {
        Some(l) => {
            let pairs = toml_table_array_pairs(l.as_str(), "links", "rel", "target");
            implements_targets(&pairs)
        },
        None => Vec::new(),
    };
    proof {
        if links_toml is None {
            assert(strs(implements@) =~= Seq::<Seq<char>>::empty());
        }
    }
    AdvisoryThread { id: string_from(id), status, implements }
}

pub open spec fn thread_ids(ts: Seq<AdvisoryThread>) -> Seq<Seq<char>> {
    Seq::new(ts.len(), |i: int| ts[i].id@)
}

/// A link target as a known thread ID: itself when known, else its bare
/// token when that differs and is known, else itself.
pub open spec fn canonical_target(t: Seq<char>, ts: Seq<AdvisoryThread>) -> Seq<char> {
    if thread_ids(ts).contains(t) {
        t
    } else if bare_token(t) != t && thread_ids(ts).contains(bare_token(t)) {
        bare_token(t)
    } else {
        t
    }
}

/// The (parent, child) pairs of the `implements` links of the first `n`
/// threads, in order; a parent is a canonical target, a child an index.
pub open spec fn link_pairs(ts: Seq<AdvisoryThread>, n: nat) -> Seq<(Seq<char>, int)>
    decreases n,
{
    if n == 0 || n > ts.len() {
        seq![]
    } else {
        let k = (n - 1) as int;
        link_pairs(ts, (n - 1) as nat) + Seq::new(
            ts[k].implements@.len(),
            |j: int| (canonical_target(ts[k].implements@[j]@, ts), k),
        )
    }
}

/// The index of the last thread with ID `id` among the first `n`.
pub open spec fn last_with_id(ts: Seq<AdvisoryThread>, id: Seq<char>, n: nat) -> Option<int>
    decreases n,
{
    if n == 0 || n > ts.len() {
        None
    } else if ts[n - 1].id@ == id {
        Some((n - 1) as int)
    } else {
        last_with_id(ts, id, (n - 1) as nat)
    }
}

/// The IDs of the children of `parent` not yet `done`, one per link.
pub open spec fn open_children(ts: Seq<AdvisoryThread>, ps: Seq<(Seq<char>, int)>, parent: Seq<char>) -> Seq<Seq<char>>
    decreases ps.len(),
{
    if ps.len() == 0 {
        seq![]
    } else {
        let rest = open_children(ts, ps.drop_last(), parent);
        let p = ps.last();
        if p.0 == parent && ts[p.1].status@ != "done"@ {
            rest.push(ts[p.1].id@)
        } else {
            rest
        }
    }
}

/// The advisory for one parent: a `done` thread with children still
/// open.
pub open spec fn advisory_for(ts: Seq<AdvisoryThread>, parent: Seq<char>) -> Option<Seq<char>> {
    match last_with_id(ts, parent, ts.len()) {
        None => None,
        Some(p) => {
            let kids = open_children(ts, link_pairs(ts, ts.len()), parent);
            if ts[p].status@ != "done"@ || kids.len() == 0 {
                None
            } else {
                Some(
                    ts[p].id@ + " ("@ + ts[p].status@ + ") has "@ + decimal(kids.len()) + " implementing "@ + (if kids.len()
                        == 1 {
                        "child"@
                    } else {
                        "children"@
                    }) + " still open ("@ + join(kids, ", "@) + ")"@,
                )
            }
        },
    }
}

/// The advisories for the parents in `keys`, in order.
pub open spec fn advisories_for(ts: Seq<AdvisoryThread>, keys: Seq<Seq<char>>) -> Seq<Seq<char>>
    decreases keys.len(),
{
    if keys.len() == 0 {
        seq![]
    } else {
        let rest = advisories_for(ts, keys.drop_last());
        match advisory_for(ts, keys.last()) {
            Some(a) => rest.push(a),
            None => rest,
        }
    }
}

/// The parents every `implements` link names, each once, in ascending
/// order.
pub open spec fn parent_keys(ts: Seq<AdvisoryThread>, keys: Seq<Seq<char>>) -> bool {
    let targets = link_pairs(ts, ts.len()).map_values(|p: (Seq<char>, int)| p.0);
    &&& sorted_lex(keys)
    &&& no_dups(keys)
    &&& forall|x: Seq<char>| keys.contains(x) <==> targets.contains(x)
}

fn ids_contain(ts: &Vec<AdvisoryThread>, x: &str) -> (r: bool)
    ensures
        r == thread_ids(ts@).contains(x@),
{
    let mut i: usize = 0;
    while i < ts.len()
        invariant
            i <= ts@.len(),
            forall|j: int| 0 <= j < i ==> ts@[j].id@ != x@,
        decreases ts@.len() - i,
    {
        if str_eq(ts[i].id.as_str(), x) {
            proof {
                assert(thread_ids(ts@)[i as int] == x@);
            }
            return true;
        }
        i += 1;
    }
    proof {
        assert forall|j: int| 0 <= j < thread_ids(ts@).len() implies thread_ids(ts@)[j] != x@ by {
            assert(thread_ids(ts@)[j] == ts@[j].id@);
        }
    }
    false
}

fn canonical_target_exec(t: &str, ts: &Vec<AdvisoryThread>) -> (r: String)
    ensures
        r@ == canonical_target(t@, ts@),
{
    if ids_contain(ts, t) {
        return string_from(t);
    }
    let c = bare_token_for(t);
    if !str_eq(c.as_str(), t) && ids_contain(ts, c.as_str()) {
        c
    } else {
        string_from(t)
    }
}

fn link_pairs_exec(ts: &Vec<AdvisoryThread>) -> (r: Vec<(String, usize)>)
    ensures
        r@.len() == link_pairs(ts@, ts@.len()).len(),
        forall|i: int| 0 <= i < r@.len() ==> (#[trigger] r@[i]).0@ == link_pairs(ts@, ts@.len())[i].0 && r@[i].1
            == link_pairs(ts@, ts@.len())[i].1,
{
    let mut out: Vec<(String, usize)> = Vec::new();
    let mut k: usize = 0;
    while k < ts.len()
        invariant
            k <= ts@.len(),
            out@.len() == link_pairs(ts@, k as nat).len(),
            forall|i: int| 0 <= i < out@.len() ==> (#[trigger] out@[i]).0@ == link_pairs(ts@, k as nat)[i].0
                && out@[i].1 == link_pairs(ts@, k as nat)[i].1,
        decreases ts@.len() - k,
    {
        let links = &ts[k].implements;
        let ghost base = link_pairs(ts@, k as nat);
        let ghost add = Seq::new(
            ts@[k as int].implements@.len(),
            |j: int| (canonical_target(ts@[k as int].implements@[j]@, ts@), k as int),
        );
        assert(link_pairs(ts@, (k + 1) as nat) == base + add);
        let mut j: usize = 0;
        while j < links.len()
            invariant
                j <= links@.len(),
                links@ == ts@[k as int].implements@,
                k < ts@.len(),
                out@.len() == base.len() + j,
                add.len() == links@.len(),
                add == Seq::new(
                    ts@[k as int].implements@.len(),
                    |q: int| (canonical_target(ts@[k as int].implements@[q]@, ts@), k as int),
                ),
                forall|i: int| 0 <= i < base.len() ==> (#[trigger] out@[i]).0@ == base[i].0 && out@[i].1 == base[i].1,
                forall|i: int| 0 <= i < j ==> (#[trigger] out@[base.len() + i]).0@ == add[i].0 && out@[base.len() + i].1
                    == add[i].1,
            decreases links@.len() - j,
        {
            let c = canonical_target_exec(links[j].as_str(), ts);
            let ghost cv = c@;
            out.push((c, k));
            proof {
                assert(add[j as int] == (canonical_target(links@[j as int]@, ts@), k as int));
                assert(out@[base.len() + j].0@ == cv);
                assert(out@[base.len() + j].1 == k);
            }
            j += 1;
        }
        proof {
            let nb = link_pairs(ts@, (k + 1) as nat);
            assert forall|i: int| 0 <= i < out@.len() implies (#[trigger] out@[i]).0@ == nb[i].0 && out@[i].1 == nb[i].1 by {
                if i >= base.len() {
                    let q = i - base.len();
                    assert(out@[base.len() + q] == out@[i]);
                }
            }
        }
        k += 1;
    }
    out
}

/// The sorted, de-duplicated parents named by the links.
fn parent_keys_exec(pairs: &Vec<(String, usize)>, Ghost(ts): Ghost<Seq<AdvisoryThread>>) -> (r: Vec<String>)
    requires
        pairs@.len() == link_pairs(ts, ts.len()).len(),
        forall|i: int| 0 <= i < pairs@.len() ==> (#[trigger] pairs@[i]).0@ == link_pairs(ts, ts.len())[i].0,
    ensures
        parent_keys(ts, strs(r@)),
{
    let ghost targets = link_pairs(ts, ts.len()).map_values(|p: (Seq<char>, int)| p.0);
    let mut items: Vec<Vec<char>> = Vec::new();
    let mut i: usize = 0;
    while i < pairs.len()
        invariant
            i <= pairs@.len(),
            pairs@.len() == targets.len(),
            forall|q: int| 0 <= q < pairs@.len() ==> (#[trigger] pairs@[q]).0@ == targets[q],
            views(items@) == targets.take(i as int),
        decreases pairs@.len() - i,
    {
        let ghost before = views(items@);
        items.push(chars_of(pairs[i].0.as_str()));
        proof {
            assert(views(items@) =~= before.push(pairs@[i as int].0@));
            assert(targets.take(i + 1) =~= targets.take(i as int).push(targets[i as int]));
        }
        i += 1;
    }
    proof {
        assert(targets.take(i as int) =~= targets);
    }
    sorted_distinct(&items)
}

fn last_with_id_exec(ts: &Vec<AdvisoryThread>, id: &str) -> (r: Option<usize>)
    ensures
        match r {
            Some(p) => last_with_id(ts@, id@, ts@.len()) == Some(p as int) && p < ts@.len(),
            None => last_with_id(ts@, id@, ts@.len()) is None,
        },
{
    let mut n: usize = ts.len();
    while n > 0
        invariant
            n <= ts@.len(),
            last_with_id(ts@, id@, ts@.len()) == last_with_id(ts@, id@, n as nat),
        decreases n,
    {
        if str_eq(ts[n - 1].id.as_str(), id) {
            return Some(n - 1);
        }
        n -= 1;
    }
    None
}

fn open_children_exec(ts: &Vec<AdvisoryThread>, pairs: &Vec<(String, usize)>, parent: &str, Ghost(ps): Ghost<Seq<(Seq<char>, int)>>) -> (r: Vec<Vec<char>>)
    requires
        pairs@.len() == ps.len(),
        forall|i: int| 0 <= i < pairs@.len() ==> (#[trigger] pairs@[i]).0@ == ps[i].0 && pairs@[i].1 == ps[i].1,
        forall|i: int| 0 <= i < ps.len() ==> 0 <= (#[trigger] ps[i]).1 < ts@.len(),
    ensures
        views(r@) == open_children(ts@, ps, parent@),
{
    let mut out: Vec<Vec<char>> = Vec::new();
    let mut i: usize = 0;
    while i < pairs.len()
        invariant
            i <= pairs@.len(),
            pairs@.len() == ps.len(),
            forall|q: int| 0 <= q < pairs@.len() ==> (#[trigger] pairs@[q]).0@ == ps[q].0 && pairs@[q].1 == ps[q].1,
            forall|q: int| 0 <= q < ps.len() ==> 0 <= (#[trigger] ps[q]).1 < ts@.len(),
            views(out@) == open_children(ts@, ps.take(i as int), parent@),
        decreases pairs@.len() - i,
    {
        proof {
            assert(ps.take(i + 1).drop_last() =~= ps.take(i as int));
            assert(ps.take(i + 1).last() == ps[i as int]);
        }
        let k = pairs[i].1;
        assert(k < ts@.len()) by {
            assert(pairs@[i as int].1 == ps[i as int].1);
        }
        if str_eq(pairs[i].0.as_str(), parent) && !str_eq(ts[k].status.as_str(), "done") {
            let ghost before = views(out@);
            out.push(chars_of(ts[k].id.as_str()));
            proof {
                assert(views(out@) =~= before.push(ts@[k as int].id@));
            }
        }
        i += 1;
    }
    proof {
        assert(ps.take(i as int) =~= ps);
    }
    out
}

proof fn lemma_pairs_in_range(ts: Seq<AdvisoryThread>, n: nat)
    requires
        n <= ts.len(),
    ensures
        forall|i: int| 0 <= i < link_pairs(ts, n).len() ==> 0 <= (#[trigger] link_pairs(ts, n)[i]).1 < n,
    decreases n,
{
    if n > 0 {
        lemma_pairs_in_range(ts, (n - 1) as nat);
        let k = (n - 1) as int;
        let add = Seq::new(ts[k].implements@.len(), |j: int| (canonical_target(ts[k].implements@[j]@, ts), k));
        assert(link_pairs(ts, n) == link_pairs(ts, (n - 1) as nat) + add);
        assert forall|i: int| 0 <= i < link_pairs(ts, n).len() implies 0 <= (#[trigger] link_pairs(ts, n)[i]).1 < n by {
            if i >= link_pairs(ts, (n - 1) as nat).len() {
                assert(link_pairs(ts, n)[i] == add[i - link_pairs(ts, (n - 1) as nat).len()]);
            } else {
                assert(link_pairs(ts, n)[i] == link_pairs(ts, (n - 1) as nat)[i]);
            }
        }
    }
}

fn advisory_exec(ts: &Vec<AdvisoryThread>, pairs: &Vec<(String, usize)>, parent: &str) -> (r: Option<String>)
    requires
        pairs@.len() == link_pairs(ts@, ts@.len()).len(),
        forall|i: int| 0 <= i < pairs@.len() ==> (#[trigger] pairs@[i]).0@ == link_pairs(ts@, ts@.len())[i].0 && pairs@[i].1
            == link_pairs(ts@, ts@.len())[i].1,
    ensures
        match r {
            Some(a) => advisory_for(ts@, parent@) == Some(a@),
            None => advisory_for(ts@, parent@) is None,
        },
{
    let p = match last_with_id_exec(ts, parent) {
        None => return None,
        Some(p) => p,
    };
    proof {
        lemma_pairs_in_range(ts@, ts@.len());
    }
    let kids = open_children_exec(ts, pairs, parent, Ghost(link_pairs(ts@, ts@.len())));
    if !str_eq(ts[p].status.as_str(), "done") || kids.len() == 0 {
        return None;
    }
    let mut v = chars_of(ts[p].id.as_str());
    push_str(&mut v, " (");
    push_str(&mut v, ts[p].status.as_str());
    push_str(&mut v, ") has ");
    push_usize(&mut v, kids.len());
    push_str(&mut v, " implementing ");
    if kids.len() == 1 {
        push_str(&mut v, "child");
    } else {
        push_str(&mut v, "children");
    }
    push_str(&mut v, " still open (");
    let sep = chars_of(", ");
    let j = crate::text::join_chars(&kids, sep.as_slice());
    append_chars(&mut v, j.as_slice());
    push_str(&mut v, ")");
    Some(string_of(v.as_slice()))
}

/// The cross-thread advisories: for each parent named by an `implements`
/// link, in ascending order, a `done` thread whose implementing children
/// are not all `done` yet. Purely informational.
///
/// Threads are looked up by ID with a linear search over the list: the
/// parents come out sorted anyway, so a hash map would add no order, and
/// with string keys vstd's map specification proves nothing of lookups.
pub fn cross_thread_advisories(ts: &Vec<AdvisoryThread>) -> (r: Vec<String>)
    ensures
        exists|keys: Seq<Seq<char>>| parent_keys(ts@, keys) && strs(r@) == advisories_for(ts@, keys),
{
    let pairs = link_pairs_exec(ts);
    let keys = parent_keys_exec(&pairs, Ghost(ts@));
    let mut out: Vec<String> = Vec::new();
    let mut i: usize = 0;
    while i < keys.len()
        invariant
            i <= keys@.len(),
            pairs@.len() == link_pairs(ts@, ts@.len()).len(),
            forall|q: int| 0 <= q < pairs@.len() ==> (#[trigger] pairs@[q]).0@ == link_pairs(ts@, ts@.len())[q].0 && pairs@[q].1
                == link_pairs(ts@, ts@.len())[q].1,
            strs(out@) == advisories_for(ts@, strs(keys@).take(i as int)),
        decreases keys@.len() - i,
    {
        proof {
            assert(strs(keys@).take(i + 1).drop_last() =~= strs(keys@).take(i as int));
            assert(strs(keys@).take(i + 1).last() == keys@[i as int]@);
        }
        match advisory_exec(ts, &pairs, keys[i].as_str()) {
            Some(a) => {
                let ghost before = strs(out@);
                out.push(a);
                proof {
                    assert(strs(out@) =~= before.push(out@[out@.len() - 1]@));
                }
            },
            None => {},
        }
        i += 1;
    }
    proof {
        assert(strs(keys@).take(i as int) =~= strs(keys@));
    }
    out
}


// ---------------------------------------------------------------------------
// The whole check list
// ---------------------------------------------------------------------------

/// What the doctor found of one thread ref.
pub struct ThreadFacts {
    pub id: String,
    /// The ref's oldest commit carries no forum content.
    pub orphan: bool,
    pub snapshot: SnapshotRead,
    pub replay: ReplayOutcome,
    /// The thread as the cross-thread advisories read it (used when it
    /// replayed).
    pub advisory: AdvisoryThread,
}

/// What the doctor found on disk and in git, as plain values.
pub struct DoctorFacts {
    pub policy_present: bool,
    pub logs_dir_present: bool,
    pub has_thread_refs: bool,
    pub dot_forum_is_dir: bool,
    pub policy: PolicyFile,
    pub templates_is_dir: bool,
    /// One state per template file, in the order of [`template_files`].
    pub templates: Vec<FileState>,
    pub git_forum_is_dir: bool,
    /// The output of `git remote`, when it ran.
    pub remote_output: Option<String>,
    /// One refspec look per remote named in that output, in order.
    pub refspecs: Vec<Result<bool, String>>,
    /// The thread refs, when they could be listed.
    pub threads: Option<Vec<ThreadFacts>>,
    pub index_blobs: Result<FixIndexResult, String>,
}

/// A check with these fields, as a predicate.
pub open spec fn is_check(name: Seq<char>, level: CheckLevel, detail: Option<Seq<char>>) -> spec_fn(DoctorCheck) -> bool {
    |c: DoctorCheck| check_is(c, name, level, detail)
}

pub open spec fn dir_part(name: Seq<char>, is_dir: bool) -> spec_fn(DoctorCheck) -> bool {
    if is_dir {
        is_check(name, CheckLevel::Pass, None)
    } else {
        is_check(name, CheckLevel::Fail, Some("directory not found"@))
    }
}

pub open spec fn policy_part(p: PolicyFile) -> spec_fn(DoctorCheck) -> bool {
    match p {
        PolicyFile::Missing => is_check("policy.toml exists"@, CheckLevel::Fail, Some("file not found"@)),
        PolicyFile::Unreadable(m) => is_check("policy.toml valid"@, CheckLevel::Fail, Some(m@)),
        PolicyFile::Text(t) => match toml_table_error(t@) {
            None => is_check("policy.toml valid"@, CheckLevel::Pass, None),
            Some(m) => is_check("policy.toml valid"@, CheckLevel::Fail, Some(m)),
        },
    }
}

pub open spec fn template_part(name: Seq<char>, f: FileState) -> spec_fn(DoctorCheck) -> bool {
    |c: DoctorCheck| template_check_rule(name, f, c)
}

pub open spec fn git_forum_part(is_dir: bool, fresh: bool) -> spec_fn(DoctorCheck) -> bool {
    if is_dir {
        is_check(".git/forum/ directory"@, CheckLevel::Pass, None)
    } else if fresh {
        is_check(".git/forum/ directory"@, CheckLevel::Warn, Some("not yet created; will be created by `git forum init`"@))
    } else {
        is_check(".git/forum/ directory"@, CheckLevel::Fail, Some("directory not found"@))
    }
}

pub open spec fn refspec_part(remote: Seq<char>, found: Result<bool, String>) -> spec_fn(DoctorCheck) -> bool {
    let name = "forum refspec ("@ + remote + ")"@;
    match found {
        Ok(true) => is_check(name, CheckLevel::Pass, None),
        Ok(false) => is_check(
            name,
            CheckLevel::Warn,
            Some("remote '"@ + remote + "' lacks refs/forum/* fetch refspec; run `git forum init` to fix"@),
        ),
        Err(m) => is_check(name, CheckLevel::Warn, Some("could not check: "@ + m@)),
    }
}

/// The remotes named by `git remote` (none when it did not run).
pub open spec fn remotes_of(f: DoctorFacts) -> Seq<Seq<char>> {
    match f.remote_output {
        Some(o) => remote_list(lines(o@)),
        None => seq![],
    }
}

/// A fresh clone: policy present, no per-clone logs, no thread refs, and
/// some remote.
pub open spec fn fresh_of(f: DoctorFacts) -> bool {
    f.policy_present && !f.logs_dir_present && !f.has_thread_refs && remotes_of(f).len() > 0
}

/// The snapshot finding of a thread that did not decode.
pub open spec fn snapshot_part(id: Seq<char>, read: SnapshotRead) -> spec_fn(DoctorCheck) -> bool {
    let rn = thread_ref_name(id);
    match read {
        SnapshotRead::Failed(m) => is_check("snapshot decode "@ + rn, CheckLevel::Fail, Some(m@)),
        _ => is_check(
            "migrate-required "@ + rn,
            CheckLevel::Warn,
            Some("thread is on the legacy event chain; run `git forum migrate`"@),
        ),
    }
}

/// The snapshot finding of each thread that is not an orphan: nothing
/// when it decoded, else a warning or a failure.
pub open spec fn snapshot_parts(ts: Seq<ThreadFacts>) -> Seq<spec_fn(DoctorCheck) -> bool>
    decreases ts.len(),
{
    if ts.len() == 0 {
        seq![]
    } else {
        let t = ts.last();
        snapshot_parts(ts.drop_last()) + if t.orphan || t.snapshot is Decoded {
            seq![]
        } else {
            seq![snapshot_part(t.id@, t.snapshot)]
        }
    }
}

/// How many threads that are not orphans decoded.
pub open spec fn decoded_count(ts: Seq<ThreadFacts>) -> nat
    decreases ts.len(),
{
    if ts.len() == 0 {
        0
    } else {
        decoded_count(ts.drop_last()) + if !ts.last().orphan && ts.last().snapshot is Decoded { 1nat } else { 0nat }
    }
}

/// The replay findings of one thread (see [`replay_checks`]).
pub open spec fn replay_parts(t: ThreadFacts, strict: bool) -> Seq<spec_fn(DoctorCheck) -> bool> {
    let rn = thread_ref_name(t.id@);
    match t.replay {
        ReplayOutcome::Replayed { strict_issues } => seq![is_check("replay "@ + rn, CheckLevel::Pass, None)] + if strict {
            Seq::new(
                strict_issues@.len(),
                |k: int| is_check("strict-replay "@ + rn, CheckLevel::Fail, Some(strict_issues@[k]@)),
            )
        } else {
            seq![]
        },
        ReplayOutcome::Orphan => seq![
            is_check(
                "orphan ref "@ + rn,
                CheckLevel::Warn,
                Some("ref has no usable create event; run `git forum prune-orphans` to delete"@),
            ),
        ],
        ReplayOutcome::Failed(m) => seq![is_check("replay "@ + rn, CheckLevel::Fail, Some(m@))],
    }
}

pub open spec fn all_replay_parts(ts: Seq<ThreadFacts>, strict: bool) -> Seq<spec_fn(DoctorCheck) -> bool>
    decreases ts.len(),
{
    if ts.len() == 0 {
        seq![]
    } else {
        all_replay_parts(ts.drop_last(), strict) + replay_parts(ts.last(), strict)
    }
}

/// The threads that replayed, as the advisories read them.
pub open spec fn replayed_threads(ts: Seq<ThreadFacts>) -> Seq<AdvisoryThread>
    decreases ts.len(),
{
    if ts.len() == 0 {
        seq![]
    } else {
        let r = replayed_threads(ts.drop_last());
        if ts.last().replay is Replayed {
            r.push(ts.last().advisory)
        } else {
            r
        }
    }
}

/// The thread refs found (none when they could not be listed).
pub open spec fn facts_threads(f: DoctorFacts) -> Seq<ThreadFacts> {
    match f.threads {
        Some(ts) => ts@,
        None => seq![],
    }
}

/// The doctor's checks, in order: the fresh-clone warning; `.forum/`,
/// `policy.toml`, the templates directory and each template; `.git/forum/`;
/// the refspec of each remote (or the no-remotes pass); the thread refs;
/// each thread's snapshot finding and the decoded count; the index blobs;
/// each thread's replay, with its strict-replay failures in strict mode.
pub open spec fn check_list(f: DoctorFacts, strict: bool) -> Seq<spec_fn(DoctorCheck) -> bool> {
    base_parts(f) + thread_parts(f.threads, f.index_blobs, strict)
}

/// The checks before the thread refs.
pub open spec fn base_parts(f: DoctorFacts) -> Seq<spec_fn(DoctorCheck) -> bool> {
    let fresh = fresh_of(f);
    let remotes = remotes_of(f);
    (if fresh {
        seq![is_check("fresh clone detected"@, CheckLevel::Warn, Some(fresh_clone_detail()))]
    } else {
        seq![]
    }) + seq![
        dir_part(".forum/ directory"@, f.dot_forum_is_dir),
        policy_part(f.policy),
        dir_part(".forum/templates/ directory"@, f.templates_is_dir),
    ] + (if f.templates_is_dir {
        Seq::new(4, |i: int| template_part(template_files()[i], f.templates@[i]))
    } else {
        seq![]
    }) + seq![git_forum_part(f.git_forum_is_dir, fresh)] + (if remotes.len() == 0 {
        seq![is_check("forum refspec (no remotes)"@, CheckLevel::Pass, None)]
    } else {
        Seq::new(remotes.len(), |i: int| refspec_part(remotes[i], f.refspecs@[i]))
    })
}

/// The checks of the thread refs, the index blobs and each replay.
pub open spec fn thread_parts(
    threads: Option<Vec<ThreadFacts>>,
    index_blobs: Result<FixIndexResult, String>,
    strict: bool,
) -> Seq<spec_fn(DoctorCheck) -> bool> {
    (match threads {
        Some(ts) => seq![is_check("thread refs: "@ + decimal(ts@.len()) + " found"@, CheckLevel::Pass, None)]
            + snapshot_parts(ts@) + if decoded_count(ts@) > 0 {
            seq![
                is_check(
                    "snapshot integrity: "@ + decimal(decoded_count(ts@)) + " thread.toml decoded"@,
                    CheckLevel::Pass,
                    None,
                ),
            ]
        } else {
            seq![]
        },
        None => seq![is_check("thread refs"@, CheckLevel::Fail, Some("could not list refs"@))],
    }) + seq![index_part(index_blobs)] + (match threads {
        Some(ts) => all_replay_parts(ts@, strict),
        None => seq![],
    })
}

pub open spec fn index_part(res: Result<FixIndexResult, String>) -> spec_fn(DoctorCheck) -> bool {
    |c: DoctorCheck| index_blob_rule(res, c)
}

proof fn lemma_replay_parts(t: ThreadFacts, strict: bool, r: Seq<DoctorCheck>)
    requires
        replay_checks_rule(t.id@, t.replay, strict, r),
    ensures
        r.len() == replay_parts(t, strict).len(),
        forall|q: int| 0 <= q < r.len() ==> (#[trigger] replay_parts(t, strict)[q])(r[q]),
{
    let rp = replay_parts(t, strict);
    match t.replay {
        ReplayOutcome::Replayed { strict_issues } => {
            assert forall|q: int| 0 <= q < r.len() implies (#[trigger] rp[q])(r[q]) by {
                if q > 0 {
                    assert(check_is(r[(q - 1) + 1], "strict-replay "@ + thread_ref_name(t.id@), CheckLevel::Fail, Some(strict_issues@[q - 1]@)));
                }
            }
        },
        _ => {},
    }
}

/// The checks meet the parts, one for one.
pub open spec fn checks_meet(cs: Seq<DoctorCheck>, ps: Seq<spec_fn(DoctorCheck) -> bool>) -> bool {
    cs.len() == ps.len() && forall|i: int| 0 <= i < cs.len() ==> (#[trigger] ps[i])(cs[i])
}

pub(crate) fn push_check(out: &mut Vec<DoctorCheck>, c: DoctorCheck, Ghost(ps): Ghost<Seq<spec_fn(DoctorCheck) -> bool>>, Ghost(p): Ghost<spec_fn(DoctorCheck) -> bool>)
    requires
        checks_meet(old(out)@, ps),
        p(c),
    ensures
        checks_meet(final(out)@, ps.push(p)),
{
    let ghost before = out@;
    out.push(c);
    proof {
        assert forall|i: int| 0 <= i < out@.len() implies (#[trigger] ps.push(p)[i])(out@[i]) by {
            if i < ps.len() {
                assert(ps.push(p)[i] == ps[i]);
                assert(out@[i] == before[i]);
            }
        }
    }
}

fn copy_snapshot_read(r: &SnapshotRead) -> (c: SnapshotRead)
    ensures
        match (*r, c) {
            (SnapshotRead::Decoded, SnapshotRead::Decoded) => true,
            (SnapshotRead::LegacyChain, SnapshotRead::LegacyChain) => true,
            (SnapshotRead::Failed(a), SnapshotRead::Failed(b)) => a@ == b@,
            _ => false,
        },
{
    match r {
        SnapshotRead::Decoded => SnapshotRead::Decoded,
        SnapshotRead::LegacyChain => SnapshotRead::LegacyChain,
        SnapshotRead::Failed(m) => SnapshotRead::Failed(string_from(m.as_str())),
    }
}

pub(crate) fn base_checks(
    out: &mut Vec<DoctorCheck>,
    policy_present: bool,
    logs_dir_present: bool,
    has_thread_refs: bool,
    dot_forum_is_dir: bool,
    policy: PolicyFile,
    templates_is_dir: bool,
    templates: Vec<FileState>,
    git_forum_is_dir: bool,
    remote_output: &Option<String>,
    refspecs: Vec<Result<bool, String>>,
    Ghost(f): Ghost<DoctorFacts>,
)
    requires
        old(out)@.len() == 0,
        f.policy_present == policy_present,
        f.logs_dir_present == logs_dir_present,
        f.has_thread_refs == has_thread_refs,
        f.dot_forum_is_dir == dot_forum_is_dir,
        f.policy == policy,
        f.templates_is_dir == templates_is_dir,
        f.templates == templates,
        f.git_forum_is_dir == git_forum_is_dir,
        f.remote_output == *remote_output,
        f.refspecs == refspecs,
        templates@.len() == 4,
        refspecs@.len() == remotes_of(f).len(),
    ensures
        checks_meet(final(out)@, base_parts(f)),
{
    let ghost mut ps: Seq<spec_fn(DoctorCheck) -> bool> = seq![];
    proof {
        assert(checks_meet(out@, ps));
    }
    let remotes: Vec<String> = match remote_output {
        Some(o) => remote_names(o.as_str()),
        None => Vec::new(),
    };
    proof {
        assert(strs(remotes@) == remotes_of(f));
    }
    let fresh = is_fresh_clone(policy_present, logs_dir_present, has_thread_refs, remotes.len() > 0);
    if fresh {
        push_check(out, fresh_clone_check(), Ghost(ps), Ghost(is_check("fresh clone detected"@, CheckLevel::Warn, Some(fresh_clone_detail()))));
        proof { ps = ps.push(is_check("fresh clone detected"@, CheckLevel::Warn, Some(fresh_clone_detail()))); }
    }
    push_check(out, dir_check(".forum/ directory", dot_forum_is_dir), Ghost(ps), Ghost(dir_part(".forum/ directory"@, dot_forum_is_dir)));
    proof { ps = ps.push(dir_part(".forum/ directory"@, dot_forum_is_dir)); }
    push_check(out, policy_check(policy), Ghost(ps), Ghost(policy_part(f.policy)));
    proof { ps = ps.push(policy_part(f.policy)); }
    push_check(out, dir_check(".forum/templates/ directory", templates_is_dir), Ghost(ps), Ghost(dir_part(".forum/templates/ directory"@, templates_is_dir)));
    proof { ps = ps.push(dir_part(".forum/templates/ directory"@, templates_is_dir)); }
    let ghost p1 = ps;
    if templates_is_dir {
        let names = template_file_names();
        proof {
            assert(names@.map_values(|s: &str| s@).len() == names@.len());
            assert(template_files().len() == 4);
        }
        let mut ts = templates;
        let mut i: usize = 0;
        proof {
            assert(f.templates@.skip(0) =~= f.templates@);
        }
        while i < 4
            invariant
                i <= 4,
                names@.len() == 4,
                names@.map_values(|s: &str| s@) == template_files(),
                ts@ == f.templates@.skip(i as int),
                f.templates@.len() == 4,
                checks_meet(out@, ps),
                ps == p1 + Seq::new(i as nat, |k: int| template_part(template_files()[k], f.templates@[k])),
            decreases 4 - i,
        {
            let st = ts.remove(0);
            proof {
                assert(st == f.templates@[i as int]);
                assert(names@.map_values(|s: &str| s@)[i as int] == names@[i as int]@);
            }
            let ghost p = template_part(template_files()[i as int], f.templates@[i as int]);
            push_check(out, template_check(names[i], st), Ghost(ps), Ghost(p));
            proof {
                assert(f.templates@.skip(i + 1) =~= f.templates@.skip(i as int).subrange(1, f.templates@.skip(i as int).len() as int));
                ps = ps.push(p);
                assert(ps =~= p1 + Seq::new((i + 1) as nat, |k: int| template_part(template_files()[k], f.templates@[k])));
            }
            i += 1;
        }
    }
    push_check(out, git_forum_dir_check(git_forum_is_dir, fresh), Ghost(ps), Ghost(git_forum_part(git_forum_is_dir, fresh)));
    proof { ps = ps.push(git_forum_part(git_forum_is_dir, fresh)); }
    let ghost p3 = ps;
    if remotes.len() == 0 {
        push_check(out, no_remotes_check(), Ghost(ps), Ghost(is_check("forum refspec (no remotes)"@, CheckLevel::Pass, None)));
        proof { ps = ps.push(is_check("forum refspec (no remotes)"@, CheckLevel::Pass, None)); }
    } else {
        let mut rs = refspecs;
        let mut i: usize = 0;
        proof {
            assert(f.refspecs@.skip(0) =~= f.refspecs@);
        }
        while i < remotes.len()
            invariant
                i <= remotes@.len(),
                strs(remotes@) == remotes_of(f),
                f.refspecs@.len() == remotes@.len(),
                rs@ == f.refspecs@.skip(i as int),
                checks_meet(out@, ps),
                ps == p3 + Seq::new(i as nat, |k: int| refspec_part(remotes_of(f)[k], f.refspecs@[k])),
            decreases remotes@.len() - i,
        {
            let found = rs.remove(0);
            proof {
                assert(found == f.refspecs@[i as int]);
                assert(strs(remotes@)[i as int] == remotes@[i as int]@);
            }
            let ghost p = refspec_part(remotes_of(f)[i as int], f.refspecs@[i as int]);
            push_check(out, refspec_check(remotes[i].as_str(), found), Ghost(ps), Ghost(p));
            proof {
                assert(f.refspecs@.skip(i + 1) =~= f.refspecs@.skip(i as int).subrange(1, f.refspecs@.skip(i as int).len() as int));
                ps = ps.push(p);
                assert(ps =~= p3 + Seq::new((i + 1) as nat, |k: int| refspec_part(remotes_of(f)[k], f.refspecs@[k])));
            }
            i += 1;
        }
    }
    proof {
        assert(ps =~= base_parts(f));
    }
}

fn snapshot_checks(out: &mut Vec<DoctorCheck>, ts: &Vec<ThreadFacts>, Ghost(ps0): Ghost<Seq<spec_fn(DoctorCheck) -> bool>>)
    requires
        checks_meet(old(out)@, ps0),
        ts@.len() < u32::MAX,
    ensures
        checks_meet(final(out)@, ps0 + snapshot_parts(ts@) + if decoded_count(ts@) > 0 {
            seq![
                is_check(
                    "snapshot integrity: "@ + decimal(decoded_count(ts@)) + " thread.toml decoded"@,
                    CheckLevel::Pass,
                    None,
                ),
            ]
        } else {
            seq![]
        }),
{
    let ghost tsv = ts@;
    let ghost mut ps = ps0;
    let mut decoded: u32 = 0;
    let mut i: usize = 0;
    while i < ts.len()
        invariant
            i <= tsv.len(),
            ts@ == tsv,
            tsv.len() < u32::MAX,
            decoded as nat == decoded_count(tsv.take(i as int)),
            decoded <= i,
            checks_meet(out@, ps),
            ps == ps0 + snapshot_parts(tsv.take(i as int)),
        decreases tsv.len() - i,
    {
        proof {
            assert(tsv.take(i + 1).drop_last() =~= tsv.take(i as int));
            assert(tsv.take(i + 1).last() == tsv[i as int]);
        }
        let t = &ts[i];
        if !t.orphan {
            let read = copy_snapshot_read(&t.snapshot);
            let is_decoded = matches!(t.snapshot, SnapshotRead::Decoded);
            match snapshot_check(t.id.as_str(), read) {
                Some(c) => {
                    let ghost p = snapshot_part(t.id@, t.snapshot);
                    push_check(out, c, Ghost(ps), Ghost(p));
                    proof {
                        ps = ps.push(p);
                        assert(ps =~= ps0 + snapshot_parts(tsv.take(i + 1)));
                    }
                },
                None => {
                    proof {
                        assert(ps =~= ps0 + snapshot_parts(tsv.take(i + 1)));
                    }
                },
            }
            if is_decoded {
                decoded = decoded + 1;
            }
        } else {
            proof {
                assert(ps =~= ps0 + snapshot_parts(tsv.take(i + 1)));
            }
        }
        i += 1;
    }
    proof {
        assert(tsv.take(i as int) =~= tsv);
    }
    match snapshot_count_check(decoded) {
        Some(c) => {
            let ghost p = is_check(
                "snapshot integrity: "@ + decimal(decoded_count(tsv)) + " thread.toml decoded"@,
                CheckLevel::Pass,
                None,
            );
            push_check(out, c, Ghost(ps), Ghost(p));
            proof {
                ps = ps.push(p);
                assert(ps =~= ps0 + snapshot_parts(tsv) + seq![p]);
            }
        },
        None => {
            proof {
                assert(ps =~= ps0 + snapshot_parts(tsv) + Seq::<spec_fn(DoctorCheck) -> bool>::empty());
            }
        },
    }
}

pub(crate) fn replay_all(out: &mut Vec<DoctorCheck>, ts: Vec<ThreadFacts>, strict: bool, Ghost(ps0): Ghost<Seq<spec_fn(DoctorCheck) -> bool>>) -> (adv: Vec<AdvisoryThread>)
    requires
        checks_meet(old(out)@, ps0),
    ensures
        checks_meet(final(out)@, ps0 + all_replay_parts(ts@, strict)),
        adv@ == replayed_threads(ts@),
{
    let ghost tsv = ts@;
    let ghost mut ps = ps0;
    let n = ts.len();
    let mut rest = ts;
    let mut adv: Vec<AdvisoryThread> = Vec::new();
    let mut j: usize = 0;
    proof {
        assert(tsv.skip(0) =~= tsv);
        assert(tsv.take(0) =~= Seq::<ThreadFacts>::empty());
    }
    while j < n
        invariant
            j <= n,
            n == tsv.len(),
            rest@ == tsv.skip(j as int),
            checks_meet(out@, ps),
            ps == ps0 + all_replay_parts(tsv.take(j as int), strict),
            adv@ == replayed_threads(tsv.take(j as int)),
        decreases n - j,
    {
        proof {
            assert(tsv.take(j + 1).drop_last() =~= tsv.take(j as int));
            assert(tsv.skip(j as int)[0] == tsv[j as int]);
        }
        let t = rest.remove(0);
        proof {
            assert(t == tsv[j as int]);
            assert(tsv.take(j + 1).last() == t);
            assert(tsv.skip(j + 1) =~= tsv.skip(j as int).subrange(1, tsv.skip(j as int).len() as int));
        }
        let ghost tg = t;
        let ThreadFacts { id, orphan: _, snapshot: _, replay, advisory } = t;
        let replayed = matches!(replay, ReplayOutcome::Replayed { .. });
        let cs = replay_checks(id.as_str(), replay, strict);
        let ghost rp = replay_parts(tg, strict);
        proof {
            lemma_replay_parts(tg, strict, cs@);
        }
        let ghost before = ps;
        let mut k: usize = 0;
        let m = cs.len();
        let mut cv = cs;
        while k < m
            invariant
                m == rp.len(),
                k <= rp.len(),
                cv@.len() + k == rp.len(),
                forall|q: int| 0 <= q < cv@.len() ==> (#[trigger] rp[q + k])(cv@[q]),
                checks_meet(out@, ps),
                ps == before + rp.take(k as int),
            decreases rp.len() - k,
        {
            let c = cv.remove(0);
            proof {
                assert(rp[0 + k](c));
                assert forall|q: int| 0 <= q < cv@.len() implies (#[trigger] rp[q + (k + 1)])(cv@[q]) by {
                    assert(rp[(q + 1) + k] == rp[q + (k + 1)]);
                }
            }
            push_check(out, c, Ghost(ps), Ghost(rp[k as int]));
            proof {
                ps = ps.push(rp[k as int]);
                assert(rp.take(k + 1) =~= rp.take(k as int).push(rp[k as int]));
            }
            k += 1;
        }
        proof {
            assert(rp.take(k as int) =~= rp);
            assert(ps =~= ps0 + all_replay_parts(tsv.take(j + 1), strict));
        }
        if replayed {
            adv.push(advisory);
        }
        j += 1;
    }
    proof {
        assert(tsv.take(j as int) =~= tsv);
    }
    adv
}

/// The checks and advisories of `git forum doctor` for what was found
/// (see [`check_list`]); in strict mode every strict-replay issue fails.
/// The advisories come from the threads that replayed.
pub fn doctor_report(facts: DoctorFacts, strict: bool) -> (r: DoctorReport)
    requires
        facts.templates@.len() == 4,
        facts.refspecs@.len() == remotes_of(facts).len(),
        facts.threads matches Some(ts) ==> ts@.len() < u32::MAX,
    ensures
        checks_meet(r.checks@, check_list(facts, strict)),
        exists|keys: Seq<Seq<char>>|
            #![trigger parent_keys(replayed_threads(facts_threads(facts)), keys)]
            parent_keys(replayed_threads(facts_threads(facts)), keys) && strs(r.advisories@) == advisories_for(
                replayed_threads(facts_threads(facts)),
                keys,
            ),
{
    let ghost f = facts;
    let mut out: Vec<DoctorCheck> = Vec::new();
    let DoctorFacts {
        policy_present,
        logs_dir_present,
        has_thread_refs,
        dot_forum_is_dir,
        policy,
        templates_is_dir,
        templates,
        git_forum_is_dir,
        remote_output,
        refspecs,
        threads,
        index_blobs,
    } = facts;
    base_checks(
        &mut out,
        policy_present,
        logs_dir_present,
        has_thread_refs,
        dot_forum_is_dir,
        policy,
        templates_is_dir,
        templates,
        git_forum_is_dir,
        &remote_output,
        refspecs,
        Ghost(f),
    );
    let ghost pb = base_parts(f);
    let advisory_threads = match threads {
        Some(ts) => {
            let ghost pn = is_check("thread refs: "@ + decimal(ts@.len()) + " found"@, CheckLevel::Pass, None);
            push_check(&mut out, thread_refs_check(Some(ts.len())), Ghost(pb), Ghost(pn));
            snapshot_checks(&mut out, &ts, Ghost(pb.push(pn)));
            let ghost ps2 = pb.push(pn) + snapshot_parts(ts@) + if decoded_count(ts@) > 0 {
                seq![
                    is_check(
                        "snapshot integrity: "@ + decimal(decoded_count(ts@)) + " thread.toml decoded"@,
                        CheckLevel::Pass,
                        None,
                    ),
                ]
            } else {
                seq![]
            };
            push_check(&mut out, index_blob_check(index_blobs), Ghost(ps2), Ghost(index_part(f.index_blobs)));
            let ghost tsv = ts@;
            let adv = replay_all(&mut out, ts, strict, Ghost(ps2.push(index_part(f.index_blobs))));
            proof {
                assert(ps2.push(index_part(f.index_blobs)) + all_replay_parts(tsv, strict) =~= check_list(f, strict));
                assert(adv@ == replayed_threads(facts_threads(f)));
            }
            adv
        },
        None => {
            let ghost pn = is_check("thread refs"@, CheckLevel::Fail, Some("could not list refs"@));
            push_check(&mut out, thread_refs_check(None), Ghost(pb), Ghost(pn));
            push_check(&mut out, index_blob_check(index_blobs), Ghost(pb.push(pn)), Ghost(index_part(f.index_blobs)));
            proof {
                assert(pb.push(pn).push(index_part(f.index_blobs)) =~= check_list(f, strict));
            }
            let v: Vec<AdvisoryThread> = Vec::new();
            proof {
                assert(v@ =~= replayed_threads(facts_threads(f)));
            }
            v
        },
    };
    let advisories = cross_thread_advisories(&advisory_threads);
    proof {
        let keys = choose|keys: Seq<Seq<char>>| parent_keys(advisory_threads@, keys) && strs(advisories@) == advisories_for(advisory_threads@, keys);
        assert(parent_keys(replayed_threads(facts_threads(f)), keys));
    }
    DoctorReport { checks: out, advisories }
}

// ---------------------------------------------------------------------------
// The older doctor
// ---------------------------------------------------------------------------

/// The facts as the older doctor reads them: it knows no fresh clone.
pub open spec fn without_fresh_clone(f: DoctorFacts) -> DoctorFacts {
    DoctorFacts { policy_present: false, ..f }
}

/// The older doctor's checks, in order: `.forum/`, `policy.toml`, the
/// templates, `.git/forum/` (missing always fails), the refspecs, the
/// thread refs, the index database, the index blobs, and each replay
/// (lenient: no strict issues, no orphan finding).
pub open spec fn legacy_check_list(f: DoctorFacts, db: IndexDb) -> Seq<spec_fn(DoctorCheck) -> bool> {
    base_parts(without_fresh_clone(f)) + (match f.threads {
        Some(ts) => seq![is_check("thread refs: "@ + decimal(ts@.len()) + " found"@, CheckLevel::Pass, None)],
        None => seq![is_check("thread refs"@, CheckLevel::Fail, Some("could not list refs"@))],
    }) + index_db_parts(db, facts_threads(f).len()) + seq![index_part(f.index_blobs)] + all_replay_parts(
        facts_threads(f),
        false,
    )
}

pub(crate) fn append_checks(
    out: &mut Vec<DoctorCheck>,
    cs: Vec<DoctorCheck>,
    Ghost(ps): Ghost<Seq<spec_fn(DoctorCheck) -> bool>>,
    Ghost(qs): Ghost<Seq<spec_fn(DoctorCheck) -> bool>>,
)
    requires
        checks_meet(old(out)@, ps),
        checks_meet(cs@, qs),
    ensures
        checks_meet(final(out)@, ps + qs),
{
    let ghost csv = cs@;
    let mut rest = cs;
    let n = rest.len();
    let mut k: usize = 0;
    proof {
        assert(csv.skip(0) =~= csv);
    }
    while k < n
        invariant
            n == csv.len(),
            csv.len() == qs.len(),
            k <= n,
            rest@ == csv.skip(k as int),
            forall|i: int| 0 <= i < csv.len() ==> (#[trigger] qs[i])(csv[i]),
            checks_meet(out@, ps + qs.take(k as int)),
        decreases n - k,
    {
        let c = rest.remove(0);
        proof {
            assert(c == csv[k as int]);
            assert(csv.skip(k + 1) =~= csv.skip(k as int).subrange(1, csv.skip(k as int).len() as int));
        }
        push_check(out, c, Ghost(ps + qs.take(k as int)), Ghost(qs[k as int]));
        proof {
            assert((ps + qs.take(k as int)).push(qs[k as int]) =~= ps + qs.take(k + 1));
        }
        k += 1;
    }
    proof {
        assert(qs.take(k as int) =~= qs);
    }
}

/// The checks and advisories of the older doctor of `internal::doctor`,
/// the one that still reads the index database (see
/// [`legacy_check_list`]): no fresh-clone or snapshot checks, the index
/// database checked against the number of thread refs, and lenient
/// replays. The advisories come from the threads that replayed.
pub fn legacy_doctor_report(facts: DoctorFacts, index_db: IndexDb) -> (r: DoctorReport)
    requires
        facts.templates@.len() == 4,
        facts.refspecs@.len() == remotes_of(facts).len(),
    ensures
        checks_meet(r.checks@, legacy_check_list(facts, index_db)),
        exists|keys: Seq<Seq<char>>|
            #![trigger parent_keys(replayed_threads(facts_threads(facts)), keys)]
            parent_keys(replayed_threads(facts_threads(facts)), keys) && strs(r.advisories@) == advisories_for(
                replayed_threads(facts_threads(facts)),
                keys,
            ),
{
    let ghost f = facts;
    let ghost g = without_fresh_clone(facts);
    let mut out: Vec<DoctorCheck> = Vec::new();
    let DoctorFacts {
        policy_present: _,
        logs_dir_present,
        has_thread_refs,
        dot_forum_is_dir,
        policy,
        templates_is_dir,
        templates,
        git_forum_is_dir,
        remote_output,
        refspecs,
        threads,
        index_blobs,
    } = facts;
    proof {
        assert(remotes_of(g) == remotes_of(f));
    }
    base_checks(
        &mut out,
        false,
        logs_dir_present,
        has_thread_refs,
        dot_forum_is_dir,
        policy,
        templates_is_dir,
        templates,
        git_forum_is_dir,
        &remote_output,
        refspecs,
        Ghost(g),
    );
    let ghost pb = base_parts(g);
    let count: usize = match &threads {
        Some(ts) => ts.len(),
        None => 0,
    };
    let ghost pn = match f.threads {
        Some(ts) => is_check("thread refs: "@ + decimal(ts@.len()) + " found"@, CheckLevel::Pass, None),
        None => is_check("thread refs"@, CheckLevel::Fail, Some("could not list refs"@)),
    };
    let listed = match &threads {
        Some(ts) => Some(ts.len()),
        None => None,
    };
    push_check(&mut out, thread_refs_check(listed), Ghost(pb), Ghost(pn));
    let ghost qs = index_db_parts(index_db, count as nat);
    append_checks(&mut out, index_db_checks(index_db, count), Ghost(pb.push(pn)), Ghost(qs));
    let ghost p2 = pb.push(pn) + qs;
    push_check(&mut out, index_blob_check(index_blobs), Ghost(p2), Ghost(index_part(f.index_blobs)));
    let ts = match threads {
        Some(ts) => ts,
        None => Vec::new(),
    };
    proof {
        assert(ts@ == facts_threads(f));
    }
    let advisory_threads = replay_all(&mut out, ts, false, Ghost(p2.push(index_part(f.index_blobs))));
    proof {
        assert(p2.push(index_part(f.index_blobs)) + all_replay_parts(facts_threads(f), false) =~= legacy_check_list(f, index_db));
    }
    let advisories = cross_thread_advisories(&advisory_threads);
    proof {
        let keys = choose|keys: Seq<Seq<char>>| parent_keys(advisory_threads@, keys) && strs(advisories@) == advisories_for(advisory_threads@, keys);
        assert(parent_keys(replayed_threads(facts_threads(f)), keys));
    }
    DoctorReport { checks: out, advisories }
}

} // verus!
