//! Thread statuses, lifecycles, the unified state machine, and the event model.

use vstd::prelude::*;

use crate::text::{str_eq, string_from, clone_opt_string, clone_strings, opt_to_string, chars_of, string_of, push_str, push_usize, str_debug, char_debug,
    is_lower, is_digit, is_lower_exec, is_digit_exec, decimal, str_debug_text, char_debug_text, utf8_len};
use vstd::utf8::encode_utf8;
use vstd::string::StringSliceAdditionalSpecFns;

pub use crate::internal::thread::ThreadKind;
pub use crate::internal::node::NodeType;
use crate::internal::evidence::{Evidence, Timestamp};
use crate::internal::error::ForumError;
use crate::internal::thread::{kind_lifecycle, kind_name};

verus! {

// ===========================================================================
// ThreadStatus
// ===========================================================================

/// the canonical 2.0 state set across every lifecycle.
#[derive(Debug, Clone, Copy, PartialEq, Eq, Hash, Structural)]
pub enum ThreadStatus {
    Draft,
    Open,
    Working,
    Review,
    Done,
    Rejected,
    Withdrawn,
    Deprecated,
}

impl Default for ThreadStatus {
    fn default() -> (r: Self)
        ensures
            r == ThreadStatus::Open,
    {
        ThreadStatus::Open
    }
}

pub open spec fn status_name(s: ThreadStatus) -> Seq<char> {
    match s {
        ThreadStatus::Draft => "draft"@,
        ThreadStatus::Open => "open"@,
        ThreadStatus::Working => "working"@,
        ThreadStatus::Review => "review"@,
        ThreadStatus::Done => "done"@,
        ThreadStatus::Rejected => "rejected"@,
        ThreadStatus::Withdrawn => "withdrawn"@,
        ThreadStatus::Deprecated => "deprecated"@,
    }
}

/// Canonical 2.0 name → status (no 1.x synonyms).
pub open spec fn status_from_name(s: Seq<char>) -> Option<ThreadStatus> {
    if s == "draft"@ {
        Some(ThreadStatus::Draft)
    } else if s == "open"@ {
        Some(ThreadStatus::Open)
    } else if s == "working"@ {
        Some(ThreadStatus::Working)
    } else if s == "review"@ {
        Some(ThreadStatus::Review)
    } else if s == "done"@ {
        Some(ThreadStatus::Done)
    } else if s == "rejected"@ {
        Some(ThreadStatus::Rejected)
    } else if s == "withdrawn"@ {
        Some(ThreadStatus::Withdrawn)
    } else if s == "deprecated"@ {
        Some(ThreadStatus::Deprecated)
    } else {
        None
    }
}

/// text-level mapping of 1.x state names onto 2.0 names.
/// Names that are not 1.x synonyms pass through unchanged.
pub open spec fn normalize_name(s: Seq<char>) -> Seq<char> {
    if s == "accepted"@ || s == "closed"@ {
        "done"@
    } else if s == "under-review"@ || s == "reviewing"@ {
        "review"@
    } else if s == "proposed"@ {
        "open"@
    } else if s == "pending"@ || s == "designing"@ || s == "implementing"@ {
        "working"@
    } else {
        s
    }
}

/// Lenient parse: canonical names and 1.x synonyms.
pub open spec fn status_from_name_lenient(s: Seq<char>) -> Option<ThreadStatus> {
    status_from_name(normalize_name(s))
}

/// `done` names the done status.
pub proof fn lemma_done_name()
    ensures
        status_from_name_lenient("done"@) == Some(ThreadStatus::Done),
{
    reveal_strlit("done");
    reveal_strlit("accepted");
    reveal_strlit("closed");
    reveal_strlit("under-review");
    reveal_strlit("reviewing");
    reveal_strlit("proposed");
    reveal_strlit("pending");
    reveal_strlit("designing");
    reveal_strlit("implementing");
    reveal_strlit("draft");
    reveal_strlit("open");
    reveal_strlit("working");
    reveal_strlit("review");
    assert("done"@.len() == 4 && "done"@[0] == 'd');
    assert("accepted"@.len() == 8 && "closed"@.len() == 6 && "under-review"@.len() == 12);
    assert("reviewing"@.len() == 9 && "proposed"@.len() == 8 && "pending"@.len() == 7);
    assert("designing"@.len() == 9 && "implementing"@.len() == 12);
    assert("draft"@.len() == 5 && "open"@[0] == 'o' && "working"@.len() == 7 && "review"@.len() == 6);
}

impl ThreadStatus {
    /// Canonical 2.0 names only — does NOT accept 1.x synonyms.
    pub fn parse(s: &str) -> (r: Option<Self>)
        ensures
            r == status_from_name(s@),
    {
        if str_eq(s, "draft") {
            Some(ThreadStatus::Draft)
        } else if str_eq(s, "open") {
            Some(ThreadStatus::Open)
        } else if str_eq(s, "working") {
            Some(ThreadStatus::Working)
        } else if str_eq(s, "review") {
            Some(ThreadStatus::Review)
        } else if str_eq(s, "done") {
            Some(ThreadStatus::Done)
        } else if str_eq(s, "rejected") {
            Some(ThreadStatus::Rejected)
        } else if str_eq(s, "withdrawn") {
            Some(ThreadStatus::Withdrawn)
        } else if str_eq(s, "deprecated") {
            Some(ThreadStatus::Deprecated)
        } else {
            None
        }
    }

    /// Accepts canonical 2.0 names and 1.x synonyms.
    pub fn parse_lenient(s: &str) -> (r: Option<Self>)
        ensures
            r == status_from_name_lenient(s@),
    {
        Self::parse(normalize_state_name(s))
    }

    pub fn as_str(self) -> (r: &'static str)
        ensures
            r@ == status_name(self),
    {
        match self {
            ThreadStatus::Draft => "draft",
            ThreadStatus::Open => "open",
            ThreadStatus::Working => "working",
            ThreadStatus::Review => "review",
            ThreadStatus::Done => "done",
            ThreadStatus::Rejected => "rejected",
            ThreadStatus::Withdrawn => "withdrawn",
            ThreadStatus::Deprecated => "deprecated",
        }
    }

    /// Display text (the canonical name).
    pub fn to_string(self) -> (r: String)
        ensures
            r@ == status_name(self),
    {
        string_from(self.as_str())
    }
}

/// pure text-level normalization of 1.x state names.
pub fn normalize_state_name(s: &str) -> (r: &str)
    ensures
        r@ == normalize_name(s@),
{
    if str_eq(s, "accepted") || str_eq(s, "closed") {
        "done"
    } else if str_eq(s, "under-review") || str_eq(s, "reviewing") {
        "review"
    } else if str_eq(s, "proposed") {
        "open"
    } else if str_eq(s, "pending") || str_eq(s, "designing") || str_eq(s, "implementing") {
        "working"
    } else {
        s
    }
}

// ===========================================================================
// Lifecycle
// ===========================================================================

/// the sole required facet; gates the state machine.
#[derive(Debug, Clone, Copy, PartialEq, Eq, Structural)]
pub enum Lifecycle {
    Proposal,
    Execution,
    Record,
}

impl Default for Lifecycle {
    fn default() -> (r: Self)
        ensures
            r == Lifecycle::Execution,
    {
        Lifecycle::Execution
    }
}

pub open spec fn lifecycle_name(l: Lifecycle) -> Seq<char> {
    match l {
        Lifecycle::Proposal => "proposal"@,
        Lifecycle::Execution => "execution"@,
        Lifecycle::Record => "record"@,
    }
}

pub open spec fn lifecycle_from_name(s: Seq<char>) -> Option<Lifecycle> {
    if s == "proposal"@ {
        Some(Lifecycle::Proposal)
    } else if s == "execution"@ {
        Some(Lifecycle::Execution)
    } else if s == "record"@ {
        Some(Lifecycle::Record)
    } else {
        None
    }
}

/// initial state per lifecycle.
pub open spec fn lifecycle_initial(l: Lifecycle) -> ThreadStatus {
    match l {
        Lifecycle::Proposal => ThreadStatus::Draft,
        _ => ThreadStatus::Open,
    }
}

/// the states, in display order, that each lifecycle
/// can reach.
pub open spec fn lifecycle_states(l: Lifecycle) -> Seq<ThreadStatus> {
    match l {
        Lifecycle::Proposal => seq![
            ThreadStatus::Draft,
            ThreadStatus::Open,
            ThreadStatus::Review,
            ThreadStatus::Done,
            ThreadStatus::Rejected,
            ThreadStatus::Withdrawn,
            ThreadStatus::Deprecated,
        ],
        Lifecycle::Execution => seq![
            ThreadStatus::Open,
            ThreadStatus::Working,
            ThreadStatus::Review,
            ThreadStatus::Done,
            ThreadStatus::Rejected,
            ThreadStatus::Deprecated,
        ],
        Lifecycle::Record => seq![
            ThreadStatus::Open,
            ThreadStatus::Done,
            ThreadStatus::Rejected,
            ThreadStatus::Withdrawn,
            ThreadStatus::Deprecated,
        ],
    }
}

/// Membership in [`lifecycle_states`]: proposals never work, executions
/// never withdraw or draft, records never work or review or draft.
pub open spec fn lifecycle_allows(l: Lifecycle, s: ThreadStatus) -> bool {
    match l {
        Lifecycle::Proposal => s != ThreadStatus::Working,
        Lifecycle::Execution => s != ThreadStatus::Draft && s != ThreadStatus::Withdrawn,
        Lifecycle::Record => s != ThreadStatus::Draft && s != ThreadStatus::Working && s
            != ThreadStatus::Review,
    }
}

pub proof fn lemma_lifecycle_states_are_allowed(l: Lifecycle, s: ThreadStatus)
    ensures
        lifecycle_states(l).contains(s) <==> lifecycle_allows(l, s),
{
    let st = lifecycle_states(l);
    if lifecycle_allows(l, s) {
        match l {
            Lifecycle::Proposal => {
                match s {
                    ThreadStatus::Draft => assert(st[0] == s),
                    ThreadStatus::Open => assert(st[1] == s),
                    ThreadStatus::Review => assert(st[2] == s),
                    ThreadStatus::Done => assert(st[3] == s),
                    ThreadStatus::Rejected => assert(st[4] == s),
                    ThreadStatus::Withdrawn => assert(st[5] == s),
                    ThreadStatus::Deprecated => assert(st[6] == s),
                    _ => {},
                }
            },
            Lifecycle::Execution => {
                match s {
                    ThreadStatus::Open => assert(st[0] == s),
                    ThreadStatus::Working => assert(st[1] == s),
                    ThreadStatus::Review => assert(st[2] == s),
                    ThreadStatus::Done => assert(st[3] == s),
                    ThreadStatus::Rejected => assert(st[4] == s),
                    ThreadStatus::Deprecated => assert(st[5] == s),
                    _ => {},
                }
            },
            Lifecycle::Record => {
                match s {
                    ThreadStatus::Open => assert(st[0] == s),
                    ThreadStatus::Done => assert(st[1] == s),
                    ThreadStatus::Rejected => assert(st[2] == s),
                    ThreadStatus::Withdrawn => assert(st[3] == s),
                    ThreadStatus::Deprecated => assert(st[4] == s),
                    _ => {},
                }
            },
        }
    }
}

impl Lifecycle {
    pub fn as_str(self) -> (r: &'static str)
        ensures
            r@ == lifecycle_name(self),
    {
        match self {
            Lifecycle::Proposal => "proposal",
            Lifecycle::Execution => "execution",
            Lifecycle::Record => "record",
        }
    }

    pub fn parse(s: &str) -> (r: Option<Self>)
        ensures
            r == lifecycle_from_name(s@),
    {
        if str_eq(s, "proposal") {
            Some(Lifecycle::Proposal)
        } else if str_eq(s, "execution") {
            Some(Lifecycle::Execution)
        } else if str_eq(s, "record") {
            Some(Lifecycle::Record)
        } else {
            None
        }
    }

    /// initial state per lifecycle.
    pub fn initial_state(self) -> (r: &'static str)
        ensures
            r@ == status_name(lifecycle_initial(self)),
    {
        match self {
            Lifecycle::Proposal => "draft",
            _ => "open",
        }
    }

    /// states reachable for this lifecycle.
    pub fn allowed_states(self) -> (r: Vec<&'static str>)
        ensures
            r@.len() == lifecycle_states(self).len(),
            forall|i: int|
                0 <= i < r@.len() ==> #[trigger] r@[i]@ == status_name(lifecycle_states(self)[i]),
    {
        let states = lifecycle_state_list(self);
        let mut out: Vec<&'static str> = Vec::new();
        let mut i: usize = 0;
        while i < states.len()
            invariant
                i <= states@.len(),
                states@ == lifecycle_states(self),
                out@.len() == i,
                forall|j: int| 0 <= j < i ==> #[trigger] out@[j]@ == status_name(states@[j]),
            decreases states@.len() - i,
        {
            out.push(states[i].as_str());
            i += 1;
        }
        out
    }

    /// Whether `state` (1.x synonyms accepted) belongs to this lifecycle.
    pub fn allows_state(self, state: &str) -> (r: bool)
        ensures
            r == match status_from_name_lenient(state@) {
                Some(s) => lifecycle_allows(self, s),
                None => false,
            },
    {
        match ThreadStatus::parse_lenient(state) {
            Some(s) => allows_exec(self, s),
            None => false,
        }
    }

    /// Display text (the lifecycle name).
    pub fn to_string(self) -> (r: String)
        ensures
            r@ == lifecycle_name(self),
    {
        string_from(self.as_str())
    }
}

fn lifecycle_state_list(l: Lifecycle) -> (r: Vec<ThreadStatus>)
    ensures
        r@ == lifecycle_states(l),
{
    let r = match l {
        Lifecycle::Proposal => vec![
            ThreadStatus::Draft,
            ThreadStatus::Open,
            ThreadStatus::Review,
            ThreadStatus::Done,
            ThreadStatus::Rejected,
            ThreadStatus::Withdrawn,
            ThreadStatus::Deprecated,
        ],
        Lifecycle::Execution => vec![
            ThreadStatus::Open,
            ThreadStatus::Working,
            ThreadStatus::Review,
            ThreadStatus::Done,
            ThreadStatus::Rejected,
            ThreadStatus::Deprecated,
        ],
        Lifecycle::Record => vec![
            ThreadStatus::Open,
            ThreadStatus::Done,
            ThreadStatus::Rejected,
            ThreadStatus::Withdrawn,
            ThreadStatus::Deprecated,
        ],
    };
    proof {
        assert(r@ =~= lifecycle_states(l));
    }
    r
}

pub fn allows_exec(l: Lifecycle, s: ThreadStatus) -> (r: bool)
    ensures
        r == lifecycle_allows(l, s),
{
    match l {
        Lifecycle::Proposal => s != ThreadStatus::Working,
        Lifecycle::Execution => s != ThreadStatus::Draft && s != ThreadStatus::Withdrawn,
        Lifecycle::Record => s != ThreadStatus::Draft && s != ThreadStatus::Working && s
            != ThreadStatus::Review,
    }
}

// ===========================================================================
// Unified transition graph
// ===========================================================================

/// Every edge any lifecycle might need, in the order queries report them.
/// `lifecycle_allows` filters reachability per thread.
pub open spec fn edge_list() -> Seq<(ThreadStatus, ThreadStatus)> {
    seq![
        (ThreadStatus::Draft, ThreadStatus::Open),
        (ThreadStatus::Draft, ThreadStatus::Withdrawn),
        (ThreadStatus::Open, ThreadStatus::Working),
        (ThreadStatus::Open, ThreadStatus::Review),
        (ThreadStatus::Open, ThreadStatus::Done),
        (ThreadStatus::Open, ThreadStatus::Rejected),
        (ThreadStatus::Open, ThreadStatus::Withdrawn),
        (ThreadStatus::Working, ThreadStatus::Open),
        (ThreadStatus::Working, ThreadStatus::Review),
        (ThreadStatus::Working, ThreadStatus::Done),
        (ThreadStatus::Working, ThreadStatus::Rejected),
        (ThreadStatus::Review, ThreadStatus::Open),
        (ThreadStatus::Review, ThreadStatus::Working),
        (ThreadStatus::Review, ThreadStatus::Done),
        (ThreadStatus::Review, ThreadStatus::Rejected),
        (ThreadStatus::Review, ThreadStatus::Withdrawn),
        (ThreadStatus::Done, ThreadStatus::Open),
        (ThreadStatus::Done, ThreadStatus::Deprecated),
        (ThreadStatus::Rejected, ThreadStatus::Open),
    ]
}

/// The unified transition graph, as statuses.
pub fn unified_edges() -> (r: Vec<(ThreadStatus, ThreadStatus)>)
    ensures
        r@ == edge_list(),
{
    let r = vec![
        (ThreadStatus::Draft, ThreadStatus::Open),
        (ThreadStatus::Draft, ThreadStatus::Withdrawn),
        (ThreadStatus::Open, ThreadStatus::Working),
        (ThreadStatus::Open, ThreadStatus::Review),
        (ThreadStatus::Open, ThreadStatus::Done),
        (ThreadStatus::Open, ThreadStatus::Rejected),
        (ThreadStatus::Open, ThreadStatus::Withdrawn),
        (ThreadStatus::Working, ThreadStatus::Open),
        (ThreadStatus::Working, ThreadStatus::Review),
        (ThreadStatus::Working, ThreadStatus::Done),
        (ThreadStatus::Working, ThreadStatus::Rejected),
        (ThreadStatus::Review, ThreadStatus::Open),
        (ThreadStatus::Review, ThreadStatus::Working),
        (ThreadStatus::Review, ThreadStatus::Done),
        (ThreadStatus::Review, ThreadStatus::Rejected),
        (ThreadStatus::Review, ThreadStatus::Withdrawn),
        (ThreadStatus::Done, ThreadStatus::Open),
        (ThreadStatus::Done, ThreadStatus::Deprecated),
        (ThreadStatus::Rejected, ThreadStatus::Open),
    ];
    proof {
        assert(r@ =~= edge_list());
    }
    r
}

/// One legal step under `l`: both ends belong to the lifecycle and the
/// edge is in the unified graph.
pub open spec fn step(l: Lifecycle, a: ThreadStatus, b: ThreadStatus) -> bool {
    lifecycle_allows(l, a) && lifecycle_allows(l, b) && edge_list().contains((a, b))
}

/// `p` walks from `a` to `b` by legal steps (the start is not listed).
pub open spec fn is_walk(l: Lifecycle, a: ThreadStatus, p: Seq<ThreadStatus>, b: ThreadStatus) -> bool
    decreases p.len(),
{
    if p.len() == 0 {
        a == b
    } else {
        step(l, a, p[0]) && is_walk(l, p[0], p.drop_first(), b)
    }
}

/// The targets of legal steps out of `a`, in graph order, among the
/// first `n` edges.
pub open spec fn targets_upto(l: Lifecycle, a: ThreadStatus, n: nat) -> Seq<ThreadStatus>
    decreases n,
{
    if n == 0 {
        seq![]
    } else {
        let e = edge_list()[n - 1];
        let rest = targets_upto(l, a, (n - 1) as nat);
        if e.0 == a && lifecycle_allows(l, e.0) && lifecycle_allows(l, e.1) {
            rest.push(e.1)
        } else {
            rest
        }
    }
}

pub open spec fn targets(l: Lifecycle, a: ThreadStatus) -> Seq<ThreadStatus> {
    targets_upto(l, a, edge_list().len())
}

pub open spec fn names_of(p: Seq<ThreadStatus>) -> Seq<Seq<char>> {
    Seq::new(p.len(), |i: int| status_name(p[i]))
}

pub open spec fn str_views(v: Seq<&str>) -> Seq<Seq<char>> {
    Seq::new(v.len(), |i: int| v[i]@)
}

pub fn edge_exec(l: Lifecycle, a: ThreadStatus, b: ThreadStatus) -> (r: bool)
    ensures
        r == step(l, a, b),
{
    if !allows_exec(l, a) || !allows_exec(l, b) {
        return false;
    }
    let edges = unified_edges();
    let mut i: usize = 0;
    while i < edges.len()
        invariant
            i <= edges@.len(),
            edges@ == edge_list(),
            lifecycle_allows(l, a) && lifecycle_allows(l, b),
            forall|j: int| 0 <= j < i ==> edges@[j] != (a, b),
        decreases edges@.len() - i,
    {
        if edges[i].0 == a && edges[i].1 == b {
            proof {
                assert(edges@[i as int] == (a, b));
                assert(edge_list()[i as int] == (a, b));
                assert(edge_list().contains((a, b)));
            }
            return true;
        }
        i += 1;
    }
    false
}

/// the unified transition graph as `(from, to)` names.
pub fn unified_transitions() -> (r: Vec<(&'static str, &'static str)>)
    ensures
        r@.len() == edge_list().len(),
        forall|i: int|
            0 <= i < r@.len() ==> (#[trigger] r@[i]).0@ == status_name(edge_list()[i].0) && r@[i].1@
                == status_name(edge_list()[i].1),
{
    let edges = unified_edges();
    let mut out: Vec<(&'static str, &'static str)> = Vec::new();
    let mut i: usize = 0;
    while i < edges.len()
        invariant
            i <= edges@.len(),
            edges@ == edge_list(),
            out@.len() == i,
            forall|j: int|
                0 <= j < i ==> (#[trigger] out@[j]).0@ == status_name(edge_list()[j].0)
                    && out@[j].1@ == status_name(edge_list()[j].1),
        decreases edges@.len() - i,
    {
        out.push((edges[i].0.as_str(), edges[i].1.as_str()));
        i += 1;
    }
    out
}

fn targets_exec(l: Lifecycle, a: ThreadStatus) -> (r: Vec<ThreadStatus>)
    ensures
        r@ == targets(l, a),
{
    let edges = unified_edges();
    let mut out: Vec<ThreadStatus> = Vec::new();
    let mut i: usize = 0;
    while i < edges.len()
        invariant
            i <= edges@.len(),
            edges@ == edge_list(),
            out@ == targets_upto(l, a, i as nat),
        decreases edges@.len() - i,
    {
        let (x, y) = edges[i];
        if x == a && allows_exec(l, x) && allows_exec(l, y) {
            out.push(y);
        }
        i += 1;
    }
    out
}

pub proof fn lemma_targets_upto_contains(l: Lifecycle, a: ThreadStatus, b: ThreadStatus, n: nat)
    requires
        n <= edge_list().len(),
    ensures
        targets_upto(l, a, n).contains(b) <==> (lifecycle_allows(l, a) && lifecycle_allows(l, b)
            && exists|j: int| 0 <= j < n && edge_list()[j] == (a, b)),
    decreases n,
{
    if n > 0 {
        lemma_targets_upto_contains(l, a, b, (n - 1) as nat);
        let e = edge_list()[n - 1];
        let rest = targets_upto(l, a, (n - 1) as nat);
        if e.0 == a && lifecycle_allows(l, e.0) && lifecycle_allows(l, e.1) {
            assert(rest.push(e.1)[rest.len() as int] == e.1);
            if rest.push(e.1).contains(b) {
                let k = choose|k: int| 0 <= k < rest.push(e.1).len() && rest.push(e.1)[k] == b;
                if k < rest.len() {
                    assert(rest[k] == b);
                }
            }
            if rest.contains(b) {
                let k = choose|k: int| 0 <= k < rest.len() && rest[k] == b;
                assert(rest.push(e.1)[k] == b);
            }
        }
    }
}

/// A legal step is exactly an entry of the target list.
pub proof fn lemma_step_iff_target(l: Lifecycle, a: ThreadStatus, b: ThreadStatus)
    ensures
        step(l, a, b) <==> targets(l, a).contains(b),
{
    lemma_targets_upto_contains(l, a, b, edge_list().len());
}

fn names_exec(p: &Vec<ThreadStatus>) -> (r: Vec<&'static str>)
    ensures
        str_views(r@) == names_of(p@),
{
    let mut out: Vec<&'static str> = Vec::new();
    let mut i: usize = 0;
    while i < p.len()
        invariant
            i <= p@.len(),
            out@.len() == i,
            forall|j: int| 0 <= j < i ==> (#[trigger] out@[j])@ == status_name(p@[j]),
        decreases p@.len() - i,
    {
        out.push(p[i].as_str());
        i += 1;
    }
    proof {
        assert(str_views(out@) =~= names_of(p@));
    }
    out
}

/// The names of the states one legal step leads to from the state `from`
/// names, in graph order (none for an unknown name).
pub open spec fn target_names(l: Lifecycle, from: Seq<char>) -> Seq<Seq<char>> {
    match status_from_name_lenient(from) {
        Some(a) => names_of(targets(l, a)),
        None => Seq::<Seq<char>>::empty(),
    }
}

proof fn lemma_targets_upto_distinct(l: Lifecycle, a: ThreadStatus, n: nat)
    requires
        n <= edge_list().len(),
        edge_list().no_duplicates(),
    ensures
        targets_upto(l, a, n).no_duplicates(),
    decreases n,
{
    if n > 0 {
        lemma_targets_upto_distinct(l, a, (n - 1) as nat);
        let e = edge_list()[n - 1];
        let rest = targets_upto(l, a, (n - 1) as nat);
        if e.0 == a && lifecycle_allows(l, e.0) && lifecycle_allows(l, e.1) {
            lemma_targets_upto_contains(l, a, e.1, (n - 1) as nat);
            if rest.contains(e.1) {
                let j = choose|j: int| 0 <= j < n - 1 && edge_list()[j] == (a, e.1);
                assert(edge_list()[j] == edge_list()[n - 1]);
            }
            let t = rest.push(e.1);
            assert forall|i: int, k: int| 0 <= i < t.len() && 0 <= k < t.len() && i != k implies t[i] != t[k] by {
                if i < rest.len() && k < rest.len() {
                    assert(t[i] == rest[i] && t[k] == rest[k]);
                } else if i < rest.len() {
                    assert(t[i] == rest[i]);
                    assert(rest.contains(rest[i]));
                } else if k < rest.len() {
                    assert(t[k] == rest[k]);
                    assert(rest.contains(rest[k]));
                }
            }
        }
    }
}

/// Law: the target names of a state are distinct names of states the
/// lifecycle allows, and the name of a state is among them exactly when a
/// legal transition leads there from `from`.
pub proof fn lemma_valid_targets(l: Lifecycle, from: Seq<char>)
    ensures
        target_names(l, from).no_duplicates(),
        forall|i: int|
            0 <= i < target_names(l, from).len() ==> (status_from_name(#[trigger] target_names(l, from)[i]) matches Some(
                b,
            ) && lifecycle_allows(l, b)),
        forall|b: ThreadStatus|
            #![trigger status_name(b)]
            target_names(l, from).contains(status_name(b)) <==> match status_from_name_lenient(from) {
                Some(a) => step(l, a, b),
                None => false,
            },
{
    match status_from_name_lenient(from) {
        Some(a) => {
            let ts = targets(l, a);
            let r = names_of(ts);
            assert(edge_list().no_duplicates());
            lemma_targets_upto_distinct(l, a, edge_list().len());
            assert forall|i: int, k: int| 0 <= i < r.len() && 0 <= k < r.len() && i != k implies r[i] != r[k] by {
                lemma_status_name_round_trip(ts[i]);
                lemma_status_name_round_trip(ts[k]);
            }
            assert forall|i: int| 0 <= i < r.len() implies (status_from_name(#[trigger] r[i]) matches Some(b)
                && lifecycle_allows(l, b)) by {
                lemma_status_name_round_trip(ts[i]);
                assert(ts.contains(ts[i]));
                lemma_step_iff_target(l, a, ts[i]);
            }
            assert forall|b: ThreadStatus| #![trigger status_name(b)] r.contains(status_name(b)) <==> step(l, a, b) by {
                lemma_step_iff_target(l, a, b);
                lemma_status_name_round_trip(b);
                if r.contains(status_name(b)) {
                    let i = choose|i: int| 0 <= i < r.len() && r[i] == status_name(b);
                    lemma_status_name_round_trip(ts[i]);
                    assert(ts[i] == b);
                }
                if ts.contains(b) {
                    let i = choose|i: int| 0 <= i < ts.len() && ts[i] == b;
                    assert(r[i] == status_name(b));
                }
            }
        },
        None => {},
    }
}

/// Destination states reachable in one step from `from` for `lifecycle`,
/// in graph order. `from` may be a 1.x synonym; an unknown name has none
/// (see [`lemma_valid_targets`]).
pub fn valid_targets(lifecycle: Lifecycle, from: &str) -> (r: Vec<&'static str>)
    ensures
        str_views(r@) == target_names(lifecycle, from@),
{
    match ThreadStatus::parse_lenient(from) {
        Some(a) => {
            let t = targets_exec(lifecycle, a);
            names_exec(&t)
        },
        None => {
            let r: Vec<&'static str> = Vec::new();
            proof {
                assert(str_views(r@) =~= Seq::<Seq<char>>::empty());
            }
            r
        },
    }
}

/// Whether `from -> to` is a legal step for the lifecycle (1.x synonyms
/// accepted on both ends).
pub fn is_valid_transition(lifecycle: Lifecycle, from: &str, to: &str) -> (r: bool)
    ensures
        r == name_step(lifecycle, from@, to@),
{
    match (ThreadStatus::parse_lenient(from), ThreadStatus::parse_lenient(to)) {
        (Some(a), Some(b)) => edge_exec(lifecycle, a, b),
        _ => false,
    }
}


// ---------------------------------------------------------------------------
// Shortest paths
// ---------------------------------------------------------------------------

pub open spec fn status_index(s: ThreadStatus) -> int {
    match s {
        ThreadStatus::Draft => 0,
        ThreadStatus::Open => 1,
        ThreadStatus::Working => 2,
        ThreadStatus::Review => 3,
        ThreadStatus::Done => 4,
        ThreadStatus::Rejected => 5,
        ThreadStatus::Withdrawn => 6,
        ThreadStatus::Deprecated => 7,
    }
}

pub open spec fn status_at(i: int) -> ThreadStatus {
    if i == 0 {
        ThreadStatus::Draft
    } else if i == 1 {
        ThreadStatus::Open
    } else if i == 2 {
        ThreadStatus::Working
    } else if i == 3 {
        ThreadStatus::Review
    } else if i == 4 {
        ThreadStatus::Done
    } else if i == 5 {
        ThreadStatus::Rejected
    } else if i == 6 {
        ThreadStatus::Withdrawn
    } else {
        ThreadStatus::Deprecated
    }
}

proof fn lemma_status_index(s: ThreadStatus)
    ensures
        0 <= status_index(s) < 8,
        status_at(status_index(s)) == s,
{
}

fn status_index_exec(s: ThreadStatus) -> (r: usize)
    ensures
        r == status_index(s),
        r < 8,
{
    match s {
        ThreadStatus::Draft => 0,
        ThreadStatus::Open => 1,
        ThreadStatus::Working => 2,
        ThreadStatus::Review => 3,
        ThreadStatus::Done => 4,
        ThreadStatus::Rejected => 5,
        ThreadStatus::Withdrawn => 6,
        ThreadStatus::Deprecated => 7,
    }
}

fn status_at_exec(i: usize) -> (r: ThreadStatus)
    requires
        i < 8,
    ensures
        r == status_at(i as int),
        status_index(r) == i,
{
    if i == 0 {
        ThreadStatus::Draft
    } else if i == 1 {
        ThreadStatus::Open
    } else if i == 2 {
        ThreadStatus::Working
    } else if i == 3 {
        ThreadStatus::Review
    } else if i == 4 {
        ThreadStatus::Done
    } else if i == 5 {
        ThreadStatus::Rejected
    } else if i == 6 {
        ThreadStatus::Withdrawn
    } else {
        ThreadStatus::Deprecated
    }
}

/// There is a walk of exactly `n` legal steps from `a` to `b`.
pub open spec fn walk_to(l: Lifecycle, a: ThreadStatus, b: ThreadStatus, n: int) -> bool {
    exists|q: Seq<ThreadStatus>| q.len() == n && #[trigger] is_walk(l, a, q, b)
}

/// Where a walk from `a` along `q` ends.
pub open spec fn walk_end(a: ThreadStatus, q: Seq<ThreadStatus>) -> ThreadStatus {
    if q.len() == 0 {
        a
    } else {
        q.last()
    }
}

proof fn lemma_walk_end(l: Lifecycle, a: ThreadStatus, q: Seq<ThreadStatus>, b: ThreadStatus)
    requires
        is_walk(l, a, q, b),
    ensures
        b == walk_end(a, q),
    decreases q.len(),
{
    reveal_with_fuel(is_walk, 2);
    if q.len() > 1 {
        lemma_walk_end(l, q[0], q.drop_first(), b);
        assert(q.drop_first().last() == q.last());
    } else if q.len() == 1 {
        assert(q.drop_first().len() == 0);
    }
}

proof fn lemma_walk_push(l: Lifecycle, a: ThreadStatus, q: Seq<ThreadStatus>, b: ThreadStatus)
    ensures
        is_walk(l, a, q.push(b), b) <==> (is_walk(l, a, q, walk_end(a, q)) && step(l, walk_end(a, q), b)),
    decreases q.len(),
{
    reveal_with_fuel(is_walk, 2);
    if q.len() == 0 {
        assert(q.push(b).drop_first() =~= Seq::<ThreadStatus>::empty());
    } else {
        lemma_walk_push(l, q[0], q.drop_first(), b);
        assert(q.push(b).drop_first() =~= q.drop_first().push(b));
        assert(q.push(b)[0] == q[0]);
        if q.len() > 1 {
            assert(q.drop_first().last() == q.last());
        }
    }
}

proof fn lemma_walk_to_zero(l: Lifecycle, a: ThreadStatus, b: ThreadStatus)
    ensures
        walk_to(l, a, b, 0) == (a == b),
{
    if a == b {
        assert(is_walk(l, a, Seq::<ThreadStatus>::empty(), b));
    }
}

proof fn lemma_walk_to_succ(l: Lifecycle, a: ThreadStatus, b: ThreadStatus, n: int)
    requires
        0 <= n,
    ensures
        walk_to(l, a, b, n + 1) == exists|c: ThreadStatus|
            #[trigger] walk_to(l, a, c, n) && step(l, c, b),
{
    if walk_to(l, a, b, n + 1) {
        let q = choose|q: Seq<ThreadStatus>| q.len() == n + 1 && #[trigger] is_walk(l, a, q, b);
        let p = q.drop_last();
        assert(p.push(q.last()) =~= q);
        lemma_walk_end(l, a, q, b);
        lemma_walk_push(l, a, p, b);
        let c = walk_end(a, p);
        assert(p.len() == n && is_walk(l, a, p, c));
        assert(walk_to(l, a, c, n) && step(l, c, b));
    }
    if exists|c: ThreadStatus| #[trigger] walk_to(l, a, c, n) && step(l, c, b) {
        let c = choose|c: ThreadStatus| #[trigger] walk_to(l, a, c, n) && step(l, c, b);
        let p = choose|q: Seq<ThreadStatus>| q.len() == n && #[trigger] is_walk(l, a, q, c);
        lemma_walk_end(l, a, p, c);
        lemma_walk_push(l, a, p, b);
        assert(p.push(b).len() == n + 1 && is_walk(l, a, p.push(b), b));
    }
}

/// `b` is reachable from `a` in at most `n` steps.
pub open spec fn within(l: Lifecycle, a: ThreadStatus, b: ThreadStatus, n: int) -> bool {
    exists|i: int| 0 <= i <= n && #[trigger] walk_to(l, a, b, i)
}

/// Every walk is counted by `walk_to` at its length.
pub proof fn lemma_walk_is_walk_to(l: Lifecycle, a: ThreadStatus, q: Seq<ThreadStatus>, b: ThreadStatus)
    requires
        is_walk(l, a, q, b),
    ensures
        walk_to(l, a, b, q.len() as int),
{
}

/// Once the level after `n` adds nothing new, every reachable state is
/// reachable within `n` steps.
proof fn lemma_fixpoint(l: Lifecycle, a: ThreadStatus, n: int, m: int, x: ThreadStatus)
    requires
        0 <= n,
        0 <= m,
        forall|y: ThreadStatus| #[trigger] walk_to(l, a, y, n + 1) ==> within(l, a, y, n),
        walk_to(l, a, x, m),
    ensures
        within(l, a, x, n),
    decreases m,
{
    if m <= n {
        assert(walk_to(l, a, x, m));
    } else {
        lemma_walk_to_succ(l, a, x, m - 1);
        let c = choose|c: ThreadStatus| #[trigger] walk_to(l, a, c, m - 1) && step(l, c, x);
        lemma_fixpoint(l, a, n, m - 1, c);
        let i = choose|i: int| 0 <= i <= n && #[trigger] walk_to(l, a, c, i);
        assert(walk_to(l, a, c, i) && step(l, c, x));
        lemma_walk_to_succ(l, a, x, i);
        assert(walk_to(l, a, x, i + 1));
        if i + 1 <= n {
        } else {
            assert(walk_to(l, a, x, n + 1));
        }
    }
}

pub open spec fn count_true(s: Seq<bool>) -> nat
    decreases s.len(),
{
    if s.len() == 0 {
        0
    } else {
        count_true(s.drop_last()) + (if s.last() {
            1nat
        } else {
            0nat
        })
    }
}

proof fn lemma_count_bound(s: Seq<bool>)
    ensures
        count_true(s) <= s.len(),
    decreases s.len(),
{
    if s.len() > 0 {
        lemma_count_bound(s.drop_last());
    }
}

proof fn lemma_count_grows(s1: Seq<bool>, s2: Seq<bool>, j: int)
    requires
        s1.len() == s2.len(),
        forall|i: int| 0 <= i < s1.len() && s1[i] ==> s2[i],
        0 <= j < s1.len(),
        !s1[j],
        s2[j],
    ensures
        count_true(s1) < count_true(s2),
    decreases s1.len(),
{
    lemma_count_le(s1.drop_last(), s2.drop_last());
    if j < s1.len() - 1 {
        lemma_count_grows(s1.drop_last(), s2.drop_last(), j);
    }
}

proof fn lemma_count_le(s1: Seq<bool>, s2: Seq<bool>)
    requires
        s1.len() == s2.len(),
        forall|i: int| 0 <= i < s1.len() && s1[i] ==> s2[i],
    ensures
        count_true(s1) <= count_true(s2),
    decreases s1.len(),
{
    if s1.len() > 0 {
        lemma_count_le(s1.drop_last(), s2.drop_last());
    }
}

/// The level after `cur`: the states one legal step past some state of
/// `cur`.
fn next_level(l: Lifecycle, Ghost(a): Ghost<ThreadStatus>, cur: &Vec<bool>, Ghost(n): Ghost<int>) -> (nxt: Vec<bool>)
    requires
        0 <= n,
        cur@.len() == 8,
        forall|b: ThreadStatus| #[trigger] cur@[status_index(b)] == walk_to(l, a, b, n),
    ensures
        nxt@.len() == 8,
        forall|b: ThreadStatus| #[trigger] nxt@[status_index(b)] == walk_to(l, a, b, n + 1),
{
    let mut nxt: Vec<bool> = Vec::new();
    let mut j: usize = 0;
    proof {
        assert forall|b: ThreadStatus| #[trigger] walk_to(l, a, b, n + 1) == exists|c: ThreadStatus|
            #[trigger] walk_to(l, a, c, n) && step(l, c, b) by {
            lemma_walk_to_succ(l, a, b, n);
        }
    }
    while j < 8
        invariant
            forall|b: ThreadStatus| #[trigger] walk_to(l, a, b, n + 1) == exists|c: ThreadStatus|
                #[trigger] walk_to(l, a, c, n) && step(l, c, b),
            j <= 8,
            nxt@.len() == j,
            cur@.len() == 8,
            forall|b: ThreadStatus| #[trigger] cur@[status_index(b)] == walk_to(l, a, b, n),
            forall|jj: int| 0 <= jj < j ==> nxt@[jj] == walk_to(l, a, status_at(jj), n + 1),
        decreases 8 - j,
    {
        let b = status_at_exec(j);
        let mut found = false;
        let mut k: usize = 0;
        while k < 8
            invariant
                forall|b: ThreadStatus| #[trigger] walk_to(l, a, b, n + 1) == exists|c: ThreadStatus|
                    #[trigger] walk_to(l, a, c, n) && step(l, c, b),
                k <= 8,
                cur@.len() == 8,
                b == status_at(j as int),
                forall|bb: ThreadStatus| #[trigger] cur@[status_index(bb)] == walk_to(l, a, bb, n),
                found ==> walk_to(l, a, b, n + 1),
                !found ==> forall|kk: int|
                    0 <= kk < k ==> !(walk_to(l, a, status_at(kk), n) && step(l, status_at(kk), b)),
            decreases 8 - k,
        {
            let c = status_at_exec(k);
            if cur[k] && edge_exec(l, c, b) {
                proof {
                    assert(cur@[status_index(c)] == walk_to(l, a, c, n));
                    assert(walk_to(l, a, c, n) && step(l, c, b));
                }
                found = true;
            }
            k += 1;
        }
        proof {
            if !found {
                assert forall|c: ThreadStatus| !(#[trigger] walk_to(l, a, c, n) && step(l, c, b)) by {
                    lemma_status_index(c);
                }
            }
        }
        nxt.push(found);
        j += 1;
    }
    proof {
        assert forall|b: ThreadStatus| #[trigger] nxt@[status_index(b)] == walk_to(l, a, b, n + 1) by {
            lemma_status_index(b);
        }
    }
    nxt
}

/// Shortest legal walk from `a` to `b` (the start is not listed).
pub fn find_path_status(l: Lifecycle, a: ThreadStatus, b: ThreadStatus) -> (r: Option<Vec<ThreadStatus>>)
    ensures
        match r {
            Some(p) => is_walk(l, a, p@, b) && forall|q: Seq<ThreadStatus>|
                #[trigger] is_walk(l, a, q, b) ==> p@.len() <= q.len(),
            None => forall|q: Seq<ThreadStatus>| !#[trigger] is_walk(l, a, q, b),
        },
{
    if a == b {
        let p: Vec<ThreadStatus> = Vec::new();
        proof {
            assert(is_walk(l, a, p@, b));
        }
        return Some(p);
    }
    let ai = status_index_exec(a);
    let bi = status_index_exec(b);
    let mut first: Vec<bool> = Vec::new();
    let mut j: usize = 0;
    while j < 8
        invariant
            j <= 8,
            first@.len() == j,
            ai == status_index(a),
            forall|jj: int| 0 <= jj < j ==> first@[jj] == (jj == ai),
        decreases 8 - j,
    {
        first.push(j == ai);
        j += 1;
    }
    proof {
        assert forall|x: ThreadStatus| #[trigger] first@[status_index(x)] == walk_to(l, a, x, 0) by {
            lemma_walk_to_zero(l, a, x);
            lemma_status_index(x);
            lemma_status_index(a);
        }
    }
    let mut levels: Vec<Vec<bool>> = Vec::new();
    let mut union: Vec<bool> = first.clone();
    proof {
        assert(union@ == first@);
    }
    levels.push(first);
    loop
        invariant
            levels@.len() >= 1,
            ai == status_index(a),
            bi == status_index(b),
            a != b,
            forall|n: int|
                #![trigger levels@[n]]
                0 <= n < levels@.len() ==> levels@[n]@.len() == 8 && forall|x: ThreadStatus|
                    #[trigger] levels@[n]@[status_index(x)] == walk_to(l, a, x, n),
            union@.len() == 8,
            forall|x: ThreadStatus|
                #[trigger] union@[status_index(x)] == within(l, a, x, levels@.len() - 1),
            forall|i: int| 0 <= i < levels@.len() ==> !#[trigger] walk_to(l, a, b, i),
        decreases 8 - count_true(union@),
    {
        let ghost n: int = levels@.len() - 1;
        let last_idx = levels.len() - 1;
        proof {
            assert(levels@[last_idx as int]@.len() == 8);
        }
        let nxt = next_level(l, Ghost(a), &levels[last_idx], Ghost(n));
        if nxt[bi] {
            // reconstruct backwards
            proof {
                assert(nxt@[status_index(b)] == walk_to(l, a, b, n + 1));
            }
            levels.push(nxt);
            let k = levels.len() - 1;
            let mut rev: Vec<ThreadStatus> = Vec::new();
            let mut cur = b;
            let mut jj = k;
            while jj > 0
                invariant
                    jj <= k,
                    k == levels@.len() - 1,
                    forall|n2: int|
                        #![trigger levels@[n2]]
                        0 <= n2 < levels@.len() ==> levels@[n2]@.len() == 8 && forall|x: ThreadStatus|
                            #[trigger] levels@[n2]@[status_index(x)] == walk_to(l, a, x, n2),
                    walk_to(l, a, cur, jj as int),
                    is_walk(l, cur, rev@.reverse(), b),
                    rev@.len() == k - jj,
                decreases jj,
            {
                proof {
                    lemma_walk_to_succ(l, a, cur, jj - 1);
                }
                let ghost w = choose|w: ThreadStatus|
                    #[trigger] walk_to(l, a, w, jj - 1) && step(l, w, cur);
                let mut t: usize = 0;
                let mut found: Option<ThreadStatus> = None;
                while t < 8
                    invariant
                        t <= 8,
                        jj >= 1,
                        jj <= k,
                        k == levels@.len() - 1,
                        levels@[jj - 1]@.len() == 8,
                        forall|x: ThreadStatus|
                            #[trigger] levels@[jj - 1]@[status_index(x)] == walk_to(l, a, x, jj - 1),
                        walk_to(l, a, w, jj - 1) && step(l, w, cur),
                        match found {
                            Some(c) => walk_to(l, a, c, jj - 1) && step(l, c, cur),
                            None => status_index(w) >= t,
                        },
                    decreases 8 - t,
                {
                    if found.is_none() {
                        let c = status_at_exec(t);
                        if levels[jj - 1][t] && edge_exec(l, c, cur) {
                            proof {
                                assert(levels@[jj - 1]@[status_index(c)] == walk_to(l, a, c, jj - 1));
                            }
                            found = Some(c);
                        } else {
                            proof {
                                lemma_status_index(w);
                                if status_index(w) == t {
                                    assert(levels@[jj - 1]@[status_index(w)] == walk_to(l, a, w, jj - 1));
                                }
                            }
                        }
                    }
                    t += 1;
                }
                proof {
                    lemma_status_index(w);
                }
                let c = match found {
                    Some(c) => c,
                    None => { proof { assert(false); } cur },
                };
                let ghost old_rev = rev@;
                rev.push(cur);
                proof {
                    assert(rev@.reverse() =~= seq![cur] + old_rev.reverse());
                    assert((seq![cur] + old_rev.reverse()).drop_first() =~= old_rev.reverse());
                    assert(is_walk(l, c, rev@.reverse(), b));
                }
                cur = c;
                jj -= 1;
            }
            let mut path: Vec<ThreadStatus> = Vec::new();
            let mut t = rev.len();
            while t > 0
                invariant
                    t <= rev@.len(),
                    path@ == rev@.reverse().take((rev@.len() - t) as int),
                decreases t,
            {
                t -= 1;
                path.push(rev[t]);
                proof {
                    assert(path@ =~= rev@.reverse().take((rev@.len() - t) as int));
                }
            }
            proof {
                assert(path@ =~= rev@.reverse());
                assert(cur == a);
                assert forall|q: Seq<ThreadStatus>| #[trigger] is_walk(l, a, q, b) implies path@.len() <= q.len() by {
                    lemma_walk_is_walk_to(l, a, q, b);
                }
            }
            return Some(path);
        }
        // merge into the union
        let mut grew = false;
        let ghost mut gj: int = -1;
        let mut new_union: Vec<bool> = Vec::new();
        let mut j: usize = 0;
        while j < 8
            invariant
                j <= 8,
                new_union@.len() == j,
                union@.len() == 8,
                nxt@.len() == 8,
                forall|jj: int| 0 <= jj < j ==> new_union@[jj] == (union@[jj] || nxt@[jj]),
                grew ==> 0 <= gj < j && !union@[gj] && nxt@[gj],
                !grew ==> forall|jj: int| 0 <= jj < j ==> (nxt@[jj] ==> union@[jj]),
            decreases 8 - j,
        {
            if nxt[j] && !union[j] {
                grew = true;
                proof {
                    gj = j as int;
                }
            }
            new_union.push(union[j] || nxt[j]);
            j += 1;
        }
        if !grew {
            proof {
                assert forall|y: ThreadStatus| #[trigger] walk_to(l, a, y, n + 1) implies within(l, a, y, n) by {
                    lemma_status_index(y);
                    assert(nxt@[status_index(y)]);
                    assert(union@[status_index(y)]);
                }
                assert forall|q: Seq<ThreadStatus>| !#[trigger] is_walk(l, a, q, b) by {
                    if is_walk(l, a, q, b) {
                        lemma_walk_is_walk_to(l, a, q, b);
                        lemma_fixpoint(l, a, n, q.len() as int, b);
                        let i = choose|i: int| 0 <= i <= n && #[trigger] walk_to(l, a, b, i);
                        assert(!walk_to(l, a, b, i));
                    }
                }
            }
            return None;
        }
        proof {
            lemma_count_grows(union@, new_union@, gj);
            lemma_count_bound(new_union@);
            assert forall|x: ThreadStatus| #[trigger] new_union@[status_index(x)] == within(l, a, x, n + 1) by {
                lemma_status_index(x);
                if within(l, a, x, n + 1) {
                    let i = choose|i: int| 0 <= i <= n + 1 && #[trigger] walk_to(l, a, x, i);
                    if i <= n {
                        assert(within(l, a, x, n));
                    } else {
                        assert(nxt@[status_index(x)]);
                    }
                }
                if new_union@[status_index(x)] {
                    if union@[status_index(x)] {
                        let i = choose|i: int| 0 <= i <= n && #[trigger] walk_to(l, a, x, i);
                        assert(walk_to(l, a, x, i) && i <= n + 1);
                    } else {
                        assert(walk_to(l, a, x, n + 1));
                    }
                }
            }
            assert(!walk_to(l, a, b, n + 1));
        }
        levels.push(nxt);
        union = new_union;
    }
}

proof fn lemma_edges_listed()
    ensures
        edge_list().contains((ThreadStatus::Draft, ThreadStatus::Open)),
        edge_list().contains((ThreadStatus::Draft, ThreadStatus::Withdrawn)),
        edge_list().contains((ThreadStatus::Open, ThreadStatus::Working)),
        edge_list().contains((ThreadStatus::Open, ThreadStatus::Review)),
        edge_list().contains((ThreadStatus::Open, ThreadStatus::Done)),
        edge_list().contains((ThreadStatus::Open, ThreadStatus::Rejected)),
        edge_list().contains((ThreadStatus::Open, ThreadStatus::Withdrawn)),
        edge_list().contains((ThreadStatus::Done, ThreadStatus::Deprecated)),
{
    let e = edge_list();
    assert(e[0] == (ThreadStatus::Draft, ThreadStatus::Open));
    assert(e[1] == (ThreadStatus::Draft, ThreadStatus::Withdrawn));
    assert(e[2] == (ThreadStatus::Open, ThreadStatus::Working));
    assert(e[3] == (ThreadStatus::Open, ThreadStatus::Review));
    assert(e[4] == (ThreadStatus::Open, ThreadStatus::Done));
    assert(e[5] == (ThreadStatus::Open, ThreadStatus::Rejected));
    assert(e[6] == (ThreadStatus::Open, ThreadStatus::Withdrawn));
    assert(e[17] == (ThreadStatus::Done, ThreadStatus::Deprecated));
}

/// Law: a `done` thread can be deprecated under every lifecycle (the
/// `deprecate` shorthand applies to any category), by name as well.
pub proof fn lemma_done_can_be_deprecated(l: Lifecycle)
    ensures
        step(l, ThreadStatus::Done, ThreadStatus::Deprecated),
        name_step(l, "done"@, "deprecated"@),
{
    lemma_edges_listed();
    lemma_done_name();
    lemma_status_name_lenient(ThreadStatus::Deprecated);
}

/// Law: every status a lifecycle allows can be reached from the
/// lifecycle's initial status by legal transitions.
pub proof fn lemma_every_status_reachable(l: Lifecycle, s: ThreadStatus)
    requires
        lifecycle_allows(l, s),
    ensures
        exists|q: Seq<ThreadStatus>| #[trigger] is_walk(l, lifecycle_initial(l), q, s),
{
    lemma_edges_listed();
    reveal_with_fuel(is_walk, 4);
    let a = lifecycle_initial(l);
    let q: Seq<ThreadStatus> = match l {
        Lifecycle::Proposal => match s {
            ThreadStatus::Draft => seq![],
            ThreadStatus::Withdrawn => seq![ThreadStatus::Withdrawn],
            ThreadStatus::Deprecated => seq![ThreadStatus::Open, ThreadStatus::Done, ThreadStatus::Deprecated],
            ThreadStatus::Open => seq![ThreadStatus::Open],
            _ => seq![ThreadStatus::Open, s],
        },
        _ => match s {
            ThreadStatus::Open => seq![],
            ThreadStatus::Deprecated => seq![ThreadStatus::Done, ThreadStatus::Deprecated],
            _ => seq![s],
        },
    };
    if q.len() >= 1 {
        assert(q.drop_first().len() == q.len() - 1);
    }
    if q.len() >= 2 {
        assert(q.drop_first()[0] == q[1]);
        assert(q.drop_first().drop_first().len() == q.len() - 2);
    }
    if q.len() == 3 {
        assert(q.drop_first().drop_first()[0] == q[2]);
    }
    assert(is_walk(l, a, q, s));
}

/// Law: any status a lifecycle allows, other than `withdrawn` and
/// `deprecated`, can still reach `done` by legal transitions (a rejected
/// thread through reopening).
pub proof fn lemma_done_reachable(l: Lifecycle, s: ThreadStatus)
    requires
        lifecycle_allows(l, s),
        s != ThreadStatus::Withdrawn,
        s != ThreadStatus::Deprecated,
    ensures
        exists|q: Seq<ThreadStatus>| #[trigger] is_walk(l, s, q, ThreadStatus::Done),
{
    lemma_edges_listed();
    let e = edge_list();
    assert(e[9] == (ThreadStatus::Working, ThreadStatus::Done));
    assert(e[13] == (ThreadStatus::Review, ThreadStatus::Done));
    assert(e[18] == (ThreadStatus::Rejected, ThreadStatus::Open));
    reveal_with_fuel(is_walk, 3);
    let q: Seq<ThreadStatus> = match s {
        ThreadStatus::Done => seq![],
        ThreadStatus::Draft | ThreadStatus::Rejected => seq![ThreadStatus::Open, ThreadStatus::Done],
        _ => seq![ThreadStatus::Done],
    };
    if q.len() >= 1 {
        assert(q.drop_first().len() == q.len() - 1);
    }
    if q.len() == 2 {
        assert(q.drop_first()[0] == q[1]);
        assert(q.drop_first().drop_first().len() == 0);
    }
    assert(is_walk(l, s, q, ThreadStatus::Done));
}

/// Law: an active thread (`open`, `working` or `review`) can be closed as
/// done or rejected in one step; `working` and `review` can go back to
/// `open`, and a done or rejected thread can be reopened; under a
/// lifecycle with working and review, open and review move to working and
/// open and working move to review; under a lifecycle with withdrawal,
/// draft, open and review can be withdrawn.
pub proof fn lemma_active_transitions(l: Lifecycle, s: ThreadStatus)
    ensures
        (s == ThreadStatus::Open || s == ThreadStatus::Working || s == ThreadStatus::Review) && lifecycle_allows(l, s)
            ==> step(l, s, ThreadStatus::Done) && step(l, s, ThreadStatus::Rejected),
        (s == ThreadStatus::Working || s == ThreadStatus::Review || s == ThreadStatus::Done || s == ThreadStatus::Rejected)
            && lifecycle_allows(l, s) ==> step(l, s, ThreadStatus::Open),
        (s == ThreadStatus::Open || s == ThreadStatus::Review) && lifecycle_allows(l, s) && lifecycle_allows(
            l,
            ThreadStatus::Working,
        ) ==> step(l, s, ThreadStatus::Working),
        (s == ThreadStatus::Open || s == ThreadStatus::Working) && lifecycle_allows(l, s) && lifecycle_allows(
            l,
            ThreadStatus::Review,
        ) ==> step(l, s, ThreadStatus::Review),
        (s == ThreadStatus::Draft || s == ThreadStatus::Open || s == ThreadStatus::Review) && lifecycle_allows(l, s)
            && lifecycle_allows(l, ThreadStatus::Withdrawn) ==> step(l, s, ThreadStatus::Withdrawn),
{
    let e = edge_list();
    assert(e[7] == (ThreadStatus::Working, ThreadStatus::Open));
    assert(e[8] == (ThreadStatus::Working, ThreadStatus::Review));
    assert(e[10] == (ThreadStatus::Working, ThreadStatus::Rejected));
    assert(e[11] == (ThreadStatus::Review, ThreadStatus::Open));
    assert(e[12] == (ThreadStatus::Review, ThreadStatus::Working));
    assert(e[14] == (ThreadStatus::Review, ThreadStatus::Rejected));
    assert(e[15] == (ThreadStatus::Review, ThreadStatus::Withdrawn));
    assert(e[16] == (ThreadStatus::Done, ThreadStatus::Open));
    lemma_edges_listed();
    assert(e[9] == (ThreadStatus::Working, ThreadStatus::Done));
    assert(e[13] == (ThreadStatus::Review, ThreadStatus::Done));
    assert(e[18] == (ThreadStatus::Rejected, ThreadStatus::Open));
    assert(e.contains(e[7]) && e.contains(e[8]) && e.contains(e[9]) && e.contains(e[10]) && e.contains(e[11]));
    assert(e.contains(e[12]) && e.contains(e[13]) && e.contains(e[14]) && e.contains(e[15]) && e.contains(e[16]));
    assert(e.contains(e[18]));
}

/// Law: `withdrawn` and `deprecated` are final: no legal transition
/// leaves them, under any lifecycle.
pub proof fn lemma_final_statuses(l: Lifecycle, b: ThreadStatus)
    ensures
        !step(l, ThreadStatus::Withdrawn, b),
        !step(l, ThreadStatus::Deprecated, b),
{
    let e = edge_list();
    assert forall|i: int| 0 <= i < e.len() implies (#[trigger] e[i]).0 != ThreadStatus::Withdrawn && e[i].0
        != ThreadStatus::Deprecated by {
        assert(e[0].0 == ThreadStatus::Draft);
        assert(e[1].0 == ThreadStatus::Draft);
        assert(e[2].0 == ThreadStatus::Open);
        assert(e[3].0 == ThreadStatus::Open);
        assert(e[4].0 == ThreadStatus::Open);
        assert(e[5].0 == ThreadStatus::Open);
        assert(e[6].0 == ThreadStatus::Open);
        assert(e[7].0 == ThreadStatus::Working);
        assert(e[8].0 == ThreadStatus::Working);
        assert(e[9].0 == ThreadStatus::Working);
        assert(e[10].0 == ThreadStatus::Working);
        assert(e[11].0 == ThreadStatus::Review);
        assert(e[12].0 == ThreadStatus::Review);
        assert(e[13].0 == ThreadStatus::Review);
        assert(e[14].0 == ThreadStatus::Review);
        assert(e[15].0 == ThreadStatus::Review);
        assert(e[16].0 == ThreadStatus::Done);
        assert(e[17].0 == ThreadStatus::Done);
        assert(e[18].0 == ThreadStatus::Rejected);
    }
    if e.contains((ThreadStatus::Withdrawn, b)) {
        let i = choose|i: int| 0 <= i < e.len() && e[i] == (ThreadStatus::Withdrawn, b);
        assert(e[i].0 == ThreadStatus::Withdrawn);
    }
    if e.contains((ThreadStatus::Deprecated, b)) {
        let i = choose|i: int| 0 <= i < e.len() && e[i] == (ThreadStatus::Deprecated, b);
        assert(e[i].0 == ThreadStatus::Deprecated);
    }
}

/// `r` is a shortest legal walk between the states two names name, as
/// names; `None` when either name is unknown or no legal walk exists.
pub open spec fn found_path(l: Lifecycle, from: Seq<char>, to: Seq<char>, r: Option<Seq<Seq<char>>>) -> bool {
    match (status_from_name_lenient(from), status_from_name_lenient(to)) {
        (Some(a), Some(b)) => match r {
            Some(p) => exists|q: Seq<ThreadStatus>|
                #![trigger is_walk(l, a, q, b)]
                is_walk(l, a, q, b) && p == names_of(q) && forall|q2: Seq<ThreadStatus>|
                    #[trigger] is_walk(l, a, q2, b) ==> q.len() <= q2.len(),
            None => forall|q: Seq<ThreadStatus>| !#[trigger] is_walk(l, a, q, b),
        },
        _ => r is None,
    }
}

/// One legal transition between the states two names name (either may
/// be a 1.x synonym); what [`is_valid_transition`] decides.
pub open spec fn name_step(l: Lifecycle, x: Seq<char>, y: Seq<char>) -> bool {
    match (status_from_name_lenient(x), status_from_name_lenient(y)) {
        (Some(a), Some(b)) => step(l, a, b),
        _ => false,
    }
}

/// `ws` walks by legal transitions from the state `x` names to the state
/// `y` names (the start is not listed).
pub open spec fn name_walk(l: Lifecycle, x: Seq<char>, ws: Seq<Seq<char>>, y: Seq<char>) -> bool
    decreases ws.len(),
{
    if ws.len() == 0 {
        status_from_name_lenient(x) is Some && status_from_name_lenient(x) == status_from_name_lenient(y)
    } else {
        name_step(l, x, ws[0]) && name_walk(l, ws[0], ws.drop_first(), y)
    }
}

/// The states a walk of names passes.
pub open spec fn walk_states(ws: Seq<Seq<char>>) -> Seq<ThreadStatus> {
    Seq::new(ws.len(), |i: int| status_from_name_lenient(ws[i])->Some_0)
}

proof fn lemma_status_name_lenient(st: ThreadStatus)
    ensures
        status_from_name_lenient(status_name(st)) == Some(st),
{
    lemma_normalize_canonical(st);
    lemma_status_name_round_trip(st);
}

proof fn lemma_walk_names(l: Lifecycle, x: Seq<char>, q: Seq<ThreadStatus>, y: Seq<char>)
    requires
        status_from_name_lenient(x) is Some,
        status_from_name_lenient(y) is Some,
        is_walk(l, status_from_name_lenient(x)->Some_0, q, status_from_name_lenient(y)->Some_0),
    ensures
        name_walk(l, x, names_of(q), y),
    decreases q.len(),
{
    if q.len() > 0 {
        lemma_status_name_lenient(q[0]);
        let n0 = status_name(q[0]);
        lemma_walk_names(l, n0, q.drop_first(), y);
        assert(names_of(q).drop_first() =~= names_of(q.drop_first()));
    }
}

proof fn lemma_names_walk(l: Lifecycle, x: Seq<char>, ws: Seq<Seq<char>>, y: Seq<char>)
    requires
        name_walk(l, x, ws, y),
    ensures
        status_from_name_lenient(x) is Some,
        status_from_name_lenient(y) is Some,
        is_walk(l, status_from_name_lenient(x)->Some_0, walk_states(ws), status_from_name_lenient(y)->Some_0),
    decreases ws.len(),
{
    if ws.len() > 0 {
        lemma_names_walk(l, ws[0], ws.drop_first(), y);
        assert(walk_states(ws).drop_first() =~= walk_states(ws.drop_first()));
    } else {
        assert(walk_states(ws) =~= Seq::<ThreadStatus>::empty());
    }
}

/// Law: a path that [`find_path`] finds walks by legal transitions from
/// `from` to `to`, and no such walk is shorter; when it finds none, no
/// such walk exists.
pub proof fn lemma_find_path_walks(l: Lifecycle, from: Seq<char>, to: Seq<char>, r: Option<Seq<Seq<char>>>)
    requires
        found_path(l, from, to, r),
    ensures
        match r {
            Some(p) => name_walk(l, from, p, to) && forall|ws: Seq<Seq<char>>|
                #[trigger] name_walk(l, from, ws, to) ==> p.len() <= ws.len(),
            None => forall|ws: Seq<Seq<char>>| !#[trigger] name_walk(l, from, ws, to),
        },
{
    match r {
        Some(p) => {
            let a = status_from_name_lenient(from)->Some_0;
            let b = status_from_name_lenient(to)->Some_0;
            let q = choose|q: Seq<ThreadStatus>|
                #![trigger is_walk(l, a, q, b)]
                is_walk(l, a, q, b) && p == names_of(q) && forall|q2: Seq<ThreadStatus>|
                    #[trigger] is_walk(l, a, q2, b) ==> q.len() <= q2.len();
            lemma_walk_names(l, from, q, to);
            assert forall|ws: Seq<Seq<char>>| #[trigger] name_walk(l, from, ws, to) implies p.len() <= ws.len() by {
                lemma_names_walk(l, from, ws, to);
                assert(is_walk(l, a, walk_states(ws), b));
            }
        },
        None => {
            assert forall|ws: Seq<Seq<char>>| !#[trigger] name_walk(l, from, ws, to) by {
                if name_walk(l, from, ws, to) {
                    lemma_names_walk(l, from, ws, to);
                    let a = status_from_name_lenient(from)->Some_0;
                    let b = status_from_name_lenient(to)->Some_0;
                    assert(is_walk(l, a, walk_states(ws), b));
                }
            }
        },
    }
}

/// Shortest path from `from` to `to` for `lifecycle` (start excluded);
/// both names may be 1.x synonyms. `Some([])` when they name the same
/// state; `None` when either name is unknown or no legal walk exists.
pub fn find_path(lifecycle: Lifecycle, from: &str, to: &str) -> (r: Option<Vec<&'static str>>)
    ensures
        found_path(
            lifecycle,
            from@,
            to@,
            match r {
                Some(p) => Some(str_views(p@)),
                None => None,
            },
        ),
{
    match (ThreadStatus::parse_lenient(from), ThreadStatus::parse_lenient(to)) {
        (Some(a), Some(b)) => match find_path_status(lifecycle, a, b) {
            Some(p) => {
                let names = names_exec(&p);
                Some(names)
            },
            None => None,
        },
        _ => None,
    }
}


// ===========================================================================
// 1.x state migration
// ===========================================================================

/// Kind-aware migration of a 1.x state name: the normalized name when the
/// kind's lifecycle allows it; `withdrawn` becomes `rejected` and any
/// other disallowed state becomes the lifecycle's initial state; unknown
/// names pass through normalized.
pub open spec fn migrate_name(k: ThreadKind, s: Seq<char>) -> Seq<char> {
    let n = normalize_name(s);
    match status_from_name(n) {
        Some(st) => if lifecycle_allows(kind_lifecycle(k), st) {
            n
        } else if st == ThreadStatus::Withdrawn {
            "rejected"@
        } else {
            status_name(lifecycle_initial(kind_lifecycle(k)))
        },
        None => n,
    }
}

/// Each status's name parses back to that status.
pub proof fn lemma_status_name_round_trip(st: ThreadStatus)
    ensures
        status_from_name(status_name(st)) == Some(st),
{
    reveal_strlit("draft");
    assert("draft"@[0] == 'd' && "draft"@.len() == 5);
    reveal_strlit("open");
    assert("open"@[0] == 'o' && "open"@.len() == 4);
    reveal_strlit("working");
    assert("working"@[0] == 'w' && "working"@.len() == 7);
    reveal_strlit("review");
    assert("review"@[0] == 'r' && "review"@.len() == 6);
    reveal_strlit("done");
    assert("done"@[0] == 'd' && "done"@.len() == 4);
    reveal_strlit("rejected");
    assert("rejected"@[0] == 'r' && "rejected"@.len() == 8);
    reveal_strlit("withdrawn");
    assert("withdrawn"@[0] == 'w' && "withdrawn"@.len() == 9);
    reveal_strlit("deprecated");
    assert("deprecated"@[0] == 'd' && "deprecated"@.len() == 10);
    match st {
        ThreadStatus::Draft => assert(status_from_name("draft"@) == Some(ThreadStatus::Draft)),
        ThreadStatus::Open => assert(status_from_name("open"@) == Some(ThreadStatus::Open)),
        ThreadStatus::Working => assert(status_from_name("working"@) == Some(ThreadStatus::Working)),
        ThreadStatus::Review => assert(status_from_name("review"@) == Some(ThreadStatus::Review)),
        ThreadStatus::Done => assert(status_from_name("done"@) == Some(ThreadStatus::Done)),
        ThreadStatus::Rejected => assert(status_from_name("rejected"@) == Some(ThreadStatus::Rejected)),
        ThreadStatus::Withdrawn => assert(status_from_name("withdrawn"@) == Some(ThreadStatus::Withdrawn)),
        ThreadStatus::Deprecated => assert(status_from_name("deprecated"@) == Some(ThreadStatus::Deprecated)),
    }
}

/// A status name is fixed by normalization: `normalize_name` only
/// rewrites 1.x synonyms, and no canonical name is one.
pub proof fn lemma_normalize_canonical(st: ThreadStatus)
    ensures
        normalize_name(status_name(st)) == status_name(st),
{
    reveal_strlit("accepted");
    assert("accepted"@[0] == 'a' && "accepted"@.len() == 8);
    reveal_strlit("closed");
    assert("closed"@[0] == 'c' && "closed"@.len() == 6);
    reveal_strlit("under-review");
    assert("under-review"@[0] == 'u' && "under-review"@.len() == 12);
    reveal_strlit("reviewing");
    assert("reviewing"@[0] == 'r' && "reviewing"@.len() == 9);
    reveal_strlit("proposed");
    assert("proposed"@[0] == 'p' && "proposed"@.len() == 8);
    reveal_strlit("pending");
    assert("pending"@[0] == 'p' && "pending"@.len() == 7);
    reveal_strlit("designing");
    assert("designing"@[0] == 'd' && "designing"@.len() == 9);
    reveal_strlit("implementing");
    assert("implementing"@[0] == 'i' && "implementing"@.len() == 12);
    reveal_strlit("draft");
    assert("draft"@[0] == 'd' && "draft"@.len() == 5);
    reveal_strlit("open");
    assert("open"@[0] == 'o' && "open"@.len() == 4);
    reveal_strlit("working");
    assert("working"@[0] == 'w' && "working"@.len() == 7);
    reveal_strlit("review");
    assert("review"@[0] == 'r' && "review"@.len() == 6);
    reveal_strlit("done");
    assert("done"@[0] == 'd' && "done"@.len() == 4);
    reveal_strlit("rejected");
    assert("rejected"@[0] == 'r' && "rejected"@.len() == 8);
    reveal_strlit("withdrawn");
    assert("withdrawn"@[0] == 'w' && "withdrawn"@.len() == 9);
    reveal_strlit("deprecated");
    assert("deprecated"@[0] == 'd' && "deprecated"@.len() == 10);
    assert("reviewing"@[1] == 'e' && "rejected"@[1] == 'e' && "reviewing"@[2] == 'v'
        && "rejected"@[2] == 'j');
    assert("designing"@[1] == 'e' && "deprecated"@[1] == 'e' && "designing"@[2] == 's'
        && "deprecated"@[2] == 'p');
    assert("designing"@[0] == 'd' && "withdrawn"@[0] == 'w');
}

/// Normalizing twice is normalizing once.
pub proof fn lemma_normalize_idempotent(s: Seq<char>)
    ensures
        normalize_name(normalize_name(s)) == normalize_name(s),
{
    if normalize_name(s) != s {
        let n = normalize_name(s);
        if n == "done"@ {
            lemma_normalize_canonical(ThreadStatus::Done);
        } else if n == "review"@ {
            lemma_normalize_canonical(ThreadStatus::Review);
        } else if n == "open"@ {
            lemma_normalize_canonical(ThreadStatus::Open);
        } else {
            lemma_normalize_canonical(ThreadStatus::Working);
        }
    }
}

/// Kind-aware migration of a 1.x state name to a state in the kind's
/// lifecycle (see [`migrate_name`]).
pub fn migrate_legacy_state(kind: ThreadKind, state: &str) -> (r: &str)
    ensures
        r@ == migrate_name(kind, state@),
{
    let n = normalize_state_name(state);
    match ThreadStatus::parse(n) {
        Some(st) => {
            let l = kind.lifecycle();
            if allows_exec(l, st) {
                n
            } else if st == ThreadStatus::Withdrawn {
                "rejected"
            } else {
                let init = match l {
                    Lifecycle::Proposal => ThreadStatus::Draft,
                    _ => ThreadStatus::Open,
                };
                init.as_str()
            }
        },
        None => n,
    }
}

/// Every 1.x state name that names a state at all migrates to a state
/// that the kind's lifecycle allows.
pub proof fn lemma_migrate_lands_in_lifecycle(k: ThreadKind, s: Seq<char>)
    requires
        status_from_name_lenient(s) is Some,
    ensures
        status_from_name(migrate_name(k, s)) is Some,
        lifecycle_allows(kind_lifecycle(k), status_from_name(migrate_name(k, s))->0),
{
    let st = status_from_name(normalize_name(s))->0;
    let l = kind_lifecycle(k);
    if !lifecycle_allows(l, st) {
        if st == ThreadStatus::Withdrawn {
            lemma_status_name_round_trip(ThreadStatus::Rejected);
        } else {
            lemma_status_name_round_trip(lifecycle_initial(l));
        }
    }
}

/// Migration only ever changes names the lifecycle cannot hold: a state
/// the kind's lifecycle allows keeps its (normalized) name.
pub proof fn lemma_migrate_keeps_allowed(k: ThreadKind, st: ThreadStatus)
    requires
        lifecycle_allows(kind_lifecycle(k), st),
    ensures
        migrate_name(k, status_name(st)) == status_name(st),
{
    lemma_normalize_canonical(st);
    lemma_status_name_round_trip(st);
}


// ===========================================================================
// Tag grammar
// ===========================================================================

/// A character a tag may hold: `[a-z0-9-]`.
pub open spec fn tag_char_ok(c: char) -> bool {
    is_lower(c) || is_digit(c) || c == '-'
}

/// Index of the first character at or after `i` that a tag may not hold.
pub open spec fn first_bad_tag_char(t: Seq<char>, i: nat) -> Option<nat>
    decreases t.len() - i,
{
    if i >= t.len() {
        None
    } else if !tag_char_ok(t[i as int]) {
        Some(i)
    } else {
        first_bad_tag_char(t, i + 1)
    }
}

/// The reserved filter literals.
pub open spec fn is_reserved_tag(t: Seq<char>) -> bool {
    t == "all"@ || t == "none"@ || t == "any"@ || t == "untagged"@
}

/// Why `t` is not a valid tag, or `None` when it is: 2 to 32 bytes of
/// UTF-8, a lowercase first letter, only `[a-z0-9-]`, and not a
/// reserved literal; the checks are made in that order.
pub open spec fn tag_error(t: Seq<char>) -> Option<Seq<char>> {
    let n = utf8_len(t);
    let q = str_debug_text(t);
    if n < 2 || n > 32 {
        Some(q + ": tag length must be 2–32 characters (got "@ + decimal(n as nat) + ")"@)
    } else if !is_lower(t[0]) {
        Some(q + ": tag must start with a lowercase letter `[a-z]`"@)
    } else if first_bad_tag_char(t, 0) is Some {
        Some(q + ": invalid character "@ + char_debug_text(t[first_bad_tag_char(t, 0)->0 as int])
            + " (allowed: `[a-z0-9-]`)"@)
    } else if is_reserved_tag(t) {
        Some(q + " is a reserved filter literal (one of [\"all\", \"none\", \"any\", \"untagged\"])"@)
    } else {
        None
    }
}

proof fn lemma_first_bad_tag_char(t: Seq<char>, i: nat)
    requires
        i <= t.len(),
        forall|j: int| 0 <= j < i ==> tag_char_ok(t[j]),
    ensures
        first_bad_tag_char(t, i) == first_bad_tag_char(t, 0),
    decreases i,
{
    if i > 0 {
        lemma_first_bad_tag_char(t, (i - 1) as nat);
    }
}

/// Check a tag against the tag grammar (see [`tag_error`]).
pub fn validate_tag(tag: &str) -> (r: Result<(), String>)
    ensures
        match r {
            Ok(()) => tag_error(tag@) is None,
            Err(m) => tag_error(tag@) == Some(m@),
        },
{
    let n = tag.len();
    if n < 2 || n > 32 {
        let q = str_debug(tag);
        let mut v = chars_of(q.as_str());
        push_str(&mut v, ": tag length must be 2–32 characters (got ");
        push_usize(&mut v, n);
        push_str(&mut v, ")");
        proof {
            assert(v@ =~= tag_error(tag@)->0);
        }
        return Err(string_of(v.as_slice()));
    }
    let cs = chars_of(tag);
    proof {
        if tag@.len() == 0 {
            assert(encode_utf8(tag@).len() == 0);
        }
    }
    if !is_lower_exec(cs[0]) {
        let q = str_debug(tag);
        let mut v = chars_of(q.as_str());
        push_str(&mut v, ": tag must start with a lowercase letter `[a-z]`");
        proof {
            assert(v@ =~= tag_error(tag@)->0);
        }
        return Err(string_of(v.as_slice()));
    }
    let mut i: usize = 0;
    while i < cs.len()
        invariant
            cs@ == tag@,
            i <= cs@.len(),
            2 <= utf8_len(tag@) <= 32,
            tag@.len() > 0 && is_lower(tag@[0]),
            forall|j: int| 0 <= j < i ==> tag_char_ok(cs@[j]),
        decreases cs@.len() - i,
    {
        let c = cs[i];
        if !(is_lower_exec(c) || is_digit_exec(c) || c == '-') {
            proof {
                lemma_first_bad_tag_char(tag@, i as nat);
            }
            let q = str_debug(tag);
            let mut v = chars_of(q.as_str());
            push_str(&mut v, ": invalid character ");
            let cd = char_debug(c);
            push_str(&mut v, cd.as_str());
            push_str(&mut v, " (allowed: `[a-z0-9-]`)");
            proof {
                assert(v@ =~= tag_error(tag@)->0);
            }
            return Err(string_of(v.as_slice()));
        }
        i += 1;
    }
    proof {
        lemma_first_bad_tag_char(tag@, i as nat);
    }
    if str_eq(tag, "all") || str_eq(tag, "none") || str_eq(tag, "any") || str_eq(tag, "untagged") {
        let q = str_debug(tag);
        let mut v = chars_of(q.as_str());
        push_str(&mut v, " is a reserved filter literal (one of [\"all\", \"none\", \"any\", \"untagged\"])");
        proof {
            assert(v@ =~= tag_error(tag@)->0);
        }
        return Err(string_of(v.as_slice()));
    }
    Ok(())
}


// ===========================================================================
// Stored events
// ===========================================================================

/// Event types.
#[derive(Debug, Clone, Copy, PartialEq, Eq, Structural)]
pub enum EventType {
    Create,
    Edit,
    Retract,
    Say,
    Link,
    State,
    Scope,
    Resolve,
    Reopen,
    Verify,
    Merge,
    ReviseBody,
    Retype,
    FacetSet,
}

impl Default for EventType {
    fn default() -> (r: Self)
        ensures
            r == EventType::Create,
    {
        EventType::Create
    }
}

/// The stored (and displayed) name of an event type.
pub open spec fn event_type_name(t: EventType) -> Seq<char> {
    match t {
        EventType::Create => "create"@,
        EventType::Edit => "edit"@,
        EventType::Retract => "retract"@,
        EventType::Say => "say"@,
        EventType::Link => "link"@,
        EventType::State => "state"@,
        EventType::Scope => "scope"@,
        EventType::Resolve => "resolve"@,
        EventType::Reopen => "reopen"@,
        EventType::Verify => "verify"@,
        EventType::Merge => "merge"@,
        EventType::ReviseBody => "revise-body"@,
        EventType::Retype => "retype"@,
        EventType::FacetSet => "facet-set"@,
    }
}

impl EventType {
    pub fn as_str(self) -> (r: &'static str)
        ensures
            r@ == event_type_name(self),
    {
        match self {
            EventType::Create => "create",
            EventType::Edit => "edit",
            EventType::Retract => "retract",
            EventType::Say => "say",
            EventType::Link => "link",
            EventType::State => "state",
            EventType::Scope => "scope",
            EventType::Resolve => "resolve",
            EventType::Reopen => "reopen",
            EventType::Verify => "verify",
            EventType::Merge => "merge",
            EventType::ReviseBody => "revise-body",
            EventType::Retype => "retype",
            EventType::FacetSet => "facet-set",
        }
    }

    /// Display text: the stored name.
    pub fn to_string(self) -> (r: String)
        ensures
            r@ == event_type_name(self),
    {
        string_from(self.as_str())
    }
}

/// Approval mechanism of a legacy approval record.
#[derive(Debug, Clone, Copy, PartialEq, Eq, Structural)]
pub enum ApprovalMechanism {
    Recorded,
}

/// An approval record formerly attached to State events; kept so older
/// histories stay readable.
#[derive(Debug, Clone)]
pub struct Approval {
    pub actor_id: String,
    pub approved_at: Timestamp,
    pub mechanism: ApprovalMechanism,
    pub key_id: Option<String>,
    pub proof_ref: Option<String>,
}

impl Approval {
    /// A field-by-field copy.
    pub fn duplicate(&self) -> (r: Approval)
        ensures
            r == *self,
    {
        Approval {
            actor_id: self.actor_id.clone(),
            approved_at: self.approved_at,
            mechanism: self.mechanism,
            key_id: clone_opt_string(&self.key_id),
            proof_ref: clone_opt_string(&self.proof_ref),
        }
    }
}

fn clone_approvals(v: &Vec<Approval>) -> (r: Vec<Approval>)
    ensures
        r@ == v@,
{
    let mut out: Vec<Approval> = Vec::new();
    let mut i: usize = 0;
    while i < v.len()
        invariant
            i <= v@.len(),
            out@ == v@.take(i as int),
        decreases v@.len() - i,
    {
        out.push(v[i].duplicate());
        i += 1;
        proof {
            assert(v@.take(i as int) =~= v@.take(i - 1).push(v@[i - 1]));
        }
    }
    proof {
        assert(v@.take(i as int) =~= v@);
    }
    out
}

/// An immutable event in a thread's history, as stored.
#[derive(Debug, Clone)]
pub struct Event {
    pub event_id: String,
    pub thread_id: String,
    pub event_type: EventType,
    pub created_at: Timestamp,
    pub actor: String,
    pub base_rev: Option<String>,
    pub parents: Vec<String>,
    pub title: Option<String>,
    pub kind: Option<ThreadKind>,
    pub body: Option<String>,
    pub node_type: Option<NodeType>,
    pub target_node_id: Option<String>,
    pub new_state: Option<String>,
    /// Approvals attached to legacy State events.
    pub approvals: Vec<Approval>,
    /// Evidence attached to Link events.
    pub evidence: Option<Evidence>,
    /// Relation type for thread-to-thread Link events.
    pub link_rel: Option<String>,
    /// Branch scope recorded by Create/Scope events.
    pub branch: Option<String>,
    /// Node IDs incorporated into a body revision.
    pub incorporated_node_ids: Vec<String>,
    /// Node ID this node replies to (Say events).
    pub reply_to: Option<String>,
    /// Previous node type before a Retype event.
    pub old_node_type: Option<NodeType>,
    /// Rhetorical-subtype label kept beside a canonicalized node type.
    pub legacy_subtype: Option<String>,
    /// Lifecycle facet value set by a `facet-set` event.
    pub lifecycle: Option<String>,
    /// Tags added by a `facet-set` event (applied before removals).
    pub tags_add: Vec<String>,
    /// Tags removed by a `facet-set` event.
    pub tags_remove: Vec<String>,
}

/// The epoch, the zero instant.
pub open spec fn epoch() -> Timestamp {
    Timestamp { secs: 0, nanos: 0 }
}

/// An event with every optional field empty.
pub open spec fn blank_event(thread_id: Seq<char>, event_type: EventType, actor: Seq<char>, at: Timestamp, e: Event) -> bool {
    &&& e.event_id@ == Seq::<char>::empty()
    &&& e.thread_id@ == thread_id
    &&& e.event_type == event_type
    &&& e.created_at == at
    &&& e.actor@ == actor
    &&& e.base_rev is None
    &&& e.parents@.len() == 0
    &&& e.title is None
    &&& e.kind is None
    &&& e.body is None
    &&& e.node_type is None
    &&& e.target_node_id is None
    &&& e.new_state is None
    &&& e.approvals@.len() == 0
    &&& e.evidence is None
    &&& e.link_rel is None
    &&& e.branch is None
    &&& e.incorporated_node_ids@.len() == 0
    &&& e.reply_to is None
    &&& e.old_node_type is None
    &&& e.legacy_subtype is None
    &&& e.lifecycle is None
    &&& e.tags_add@.len() == 0
    &&& e.tags_remove@.len() == 0
}

impl Default for Event {
    fn default() -> (r: Self)
        ensures
            blank_event(Seq::<char>::empty(), EventType::Create, Seq::<char>::empty(), epoch(), r),
    {
        Event {
            event_id: String::new(),
            thread_id: String::new(),
            event_type: EventType::Create,
            created_at: Timestamp { secs: 0, nanos: 0 },
            actor: String::new(),
            base_rev: None,
            parents: Vec::new(),
            title: None,
            kind: None,
            body: None,
            node_type: None,
            target_node_id: None,
            new_state: None,
            approvals: Vec::new(),
            evidence: None,
            link_rel: None,
            branch: None,
            incorporated_node_ids: Vec::new(),
            reply_to: None,
            old_node_type: None,
            legacy_subtype: None,
            lifecycle: None,
            tags_add: Vec::new(),
            tags_remove: Vec::new(),
        }
    }
}


impl Event {
    /// An event with the required fields set and every optional field
    /// empty; `now` is the creation instant.
    pub fn base(thread_id: &str, event_type: EventType, actor: &str, now: Timestamp) -> (r: Self)
        ensures
            blank_event(thread_id@, event_type, actor@, now, r),
    {
        let mut e = Event::default();
        e.thread_id = string_from(thread_id);
        e.event_type = event_type;
        e.created_at = now;
        e.actor = string_from(actor);
        e
    }

    /// Set the lifecycle facet of a `facet-set` event.
    pub fn with_lifecycle(self, lifecycle: &str) -> (r: Self)
        ensures
            r.lifecycle is Some && r.lifecycle->0@ == lifecycle@,
            r == (Event { lifecycle: r.lifecycle, ..self }),
    {
        let mut e = self;
        e.lifecycle = Some(string_from(lifecycle));
        e
    }

    /// Set the tags a `facet-set` event adds.
    pub fn with_tags_add(self, tags: Vec<String>) -> (r: Self)
        ensures
            r == (Event { tags_add: tags, ..self }),
    {
        let mut e = self;
        e.tags_add = tags;
        e
    }

    /// Set the tags a `facet-set` event removes.
    pub fn with_tags_remove(self, tags: Vec<String>) -> (r: Self)
        ensures
            r == (Event { tags_remove: tags, ..self }),
    {
        let mut e = self;
        e.tags_remove = tags;
        e
    }

    /// Record the node type a Retype event replaced.
    pub fn with_old_node_type(self, old_type: NodeType) -> (r: Self)
        ensures
            r == (Event { old_node_type: Some(old_type), ..self }),
    {
        let mut e = self;
        e.old_node_type = Some(old_type);
        e
    }

    /// Set the body.
    pub fn with_body(self, body: &str) -> (r: Self)
        ensures
            r.body is Some && r.body->0@ == body@,
            r == (Event { body: r.body, ..self }),
    {
        let mut e = self;
        e.body = Some(string_from(body));
        e
    }

    /// Set the node type.
    pub fn with_node_type(self, node_type: NodeType) -> (r: Self)
        ensures
            r == (Event { node_type: Some(node_type), ..self }),
    {
        let mut e = self;
        e.node_type = Some(node_type);
        e
    }

    /// Record a rhetorical-subtype label.
    pub fn with_legacy_subtype(self, label: &str) -> (r: Self)
        ensures
            r.legacy_subtype is Some && r.legacy_subtype->0@ == label@,
            r == (Event { legacy_subtype: r.legacy_subtype, ..self }),
    {
        let mut e = self;
        e.legacy_subtype = Some(string_from(label));
        e
    }

    /// Set the target node.
    pub fn with_target_node_id(self, node_id: &str) -> (r: Self)
        ensures
            r.target_node_id is Some && r.target_node_id->0@ == node_id@,
            r == (Event { target_node_id: r.target_node_id, ..self }),
    {
        let mut e = self;
        e.target_node_id = Some(string_from(node_id));
        e
    }

    /// Set (or clear) the node replied to.
    pub fn with_reply_to(self, reply_to: Option<&str>) -> (r: Self)
        ensures
            match reply_to {
                Some(x) => r.reply_to is Some && r.reply_to->0@ == x@,
                None => r.reply_to is None,
            },
            r == (Event { reply_to: r.reply_to, ..self }),
    {
        let mut e = self;
        e.reply_to = opt_to_string(reply_to);
        e
    }

    /// Set the new state of a State event.
    pub fn with_new_state(self, state: &str) -> (r: Self)
        ensures
            r.new_state is Some && r.new_state->0@ == state@,
            r == (Event { new_state: r.new_state, ..self }),
    {
        let mut e = self;
        e.new_state = Some(string_from(state));
        e
    }

    /// Attach legacy approvals.
    pub fn with_approvals(self, approvals: Vec<Approval>) -> (r: Self)
        ensures
            r == (Event { approvals: approvals, ..self }),
    {
        let mut e = self;
        e.approvals = approvals;
        e
    }

    /// Set the title.
    pub fn with_title(self, title: &str) -> (r: Self)
        ensures
            r.title is Some && r.title->0@ == title@,
            r == (Event { title: r.title, ..self }),
    {
        let mut e = self;
        e.title = Some(string_from(title));
        e
    }

    /// Set the thread kind.
    pub fn with_kind(self, kind: ThreadKind) -> (r: Self)
        ensures
            r == (Event { kind: Some(kind), ..self }),
    {
        let mut e = self;
        e.kind = Some(kind);
        e
    }

    /// Set (or clear) the branch scope.
    pub fn with_branch(self, branch: Option<&str>) -> (r: Self)
        ensures
            match branch {
                Some(x) => r.branch is Some && r.branch->0@ == x@,
                None => r.branch is None,
            },
            r == (Event { branch: r.branch, ..self }),
    {
        let mut e = self;
        e.branch = opt_to_string(branch);
        e
    }

    /// Set the nodes a body revision incorporates.
    pub fn with_incorporated_node_ids(self, ids: Vec<String>) -> (r: Self)
        ensures
            r == (Event { incorporated_node_ids: ids, ..self }),
    {
        let mut e = self;
        e.incorporated_node_ids = ids;
        e
    }

    /// Attach evidence to a Link event.
    pub fn with_evidence(self, evidence: Evidence) -> (r: Self)
        ensures
            r == (Event { evidence: Some(evidence), ..self }),
    {
        let mut e = self;
        e.evidence = Some(evidence);
        e
    }

    /// Set the relation of a thread Link event.
    pub fn with_link_rel(self, rel: &str) -> (r: Self)
        ensures
            r.link_rel is Some && r.link_rel->0@ == rel@,
            r == (Event { link_rel: r.link_rel, ..self }),
    {
        let mut e = self;
        e.link_rel = Some(string_from(rel));
        e
    }

    /// Set the creation instant.
    pub fn with_created_at(self, created_at: Timestamp) -> (r: Self)
        ensures
            r == (Event { created_at: created_at, ..self }),
    {
        let mut e = self;
        e.created_at = created_at;
        e
    }
}


/// Why an event breaks the field size limits, or `None`: the actor at
/// most 200 bytes, the thread id at most 100, the title at most 500, the
/// body at most 10 MiB; checked in that order.
pub open spec fn event_size_error(e: Event) -> Option<Seq<char>> {
    if utf8_len(e.actor@) > 200 {
        Some("actor too long ("@ + decimal(utf8_len(e.actor@) as nat) + " chars, max 200)"@)
    } else if utf8_len(e.thread_id@) > 100 {
        Some("thread_id too long ("@ + decimal(utf8_len(e.thread_id@) as nat) + " chars, max 100)"@)
    } else if e.title is Some && utf8_len(e.title->0@) > 500 {
        Some("title too long ("@ + decimal(utf8_len(e.title->0@) as nat) + " chars, max 500)"@)
    } else if e.body is Some && utf8_len(e.body->0@) > 10485760 {
        Some("body too long ("@ + decimal(utf8_len(e.body->0@) as nat) + " bytes, max 10485760)"@)
    } else {
        None
    }
}

fn too_long(what: &str, n: usize, tail: &str) -> (r: String)
    ensures
        r@ == what@ + decimal(n as nat) + tail@,
{
    let mut v = chars_of(what);
    push_usize(&mut v, n);
    push_str(&mut v, tail);
    string_of(v.as_slice())
}

impl Event {
    /// Check the field size limits (see [`event_size_error`]); a
    /// violation is a config error.
    pub fn validate(&self) -> (r: Result<(), ForumError>)
        ensures
            match r {
                Ok(()) => event_size_error(*self) is None,
                Err(ForumError::Config(m)) => event_size_error(*self) == Some(m@),
                Err(_) => false,
            },
    {
        let actor_len = self.actor.as_str().len();
        if actor_len > 200 {
            return Err(ForumError::Config(too_long("actor too long (", actor_len, " chars, max 200)")));
        }
        let id_len = self.thread_id.as_str().len();
        if id_len > 100 {
            return Err(ForumError::Config(too_long("thread_id too long (", id_len, " chars, max 100)")));
        }
        if let Some(title) = &self.title {
            let n = title.as_str().len();
            if n > 500 {
                return Err(ForumError::Config(too_long("title too long (", n, " chars, max 500)")));
            }
        }
        if let Some(body) = &self.body {
            let n = body.as_str().len();
            if n > 10485760 {
                return Err(ForumError::Config(too_long("body too long (", n, " bytes, max 10485760)")));
            }
        }
        Ok(())
    }
}

// ===========================================================================
// Typed projection of stored events
// ===========================================================================

/// Metadata every event variant carries.
#[derive(Debug, Clone)]
pub struct EventMeta {
    pub event_id: String,
    pub thread_id: String,
    pub event_type: EventType,
    pub created_at: Timestamp,
    pub actor: String,
    pub base_rev: Option<String>,
    pub parents: Vec<String>,
}

/// The two shapes of a Link payload: an evidence bundle, or a target
/// thread with a relation.
#[derive(Debug, Clone)]
pub enum LinkPayload {
    Evidence(Evidence),
    Thread { target_thread_id: String, link_rel: String },
}

/// Typed projection of a stored [`Event`]: each variant carries exactly
/// the fields its event type uses.
#[derive(Debug, Clone)]
pub enum DomainEvent {
    Create { meta: EventMeta, title: String, kind: ThreadKind, body: Option<String>, branch: Option<String> },
    Edit { meta: EventMeta, target_node_id: String, body: String },
    Retract { meta: EventMeta, target_node_id: String },
    Resolve { meta: EventMeta, target_node_id: String },
    Reopen { meta: EventMeta, target_node_id: String },
    Say {
        meta: EventMeta,
        node_type: NodeType,
        body: String,
        reply_to: Option<String>,
        legacy_subtype: Option<String>,
        /// Pre-allocated node id, when the writer chose one.
        target_node_id: Option<String>,
    },
    Link { meta: EventMeta, payload: LinkPayload },
    /// `new_state` stays the raw stored string; it is parsed when applied.
    State { meta: EventMeta, new_state: String, approvals: Vec<Approval> },
    Scope { meta: EventMeta, branch: Option<String> },
    Verify { meta: EventMeta },
    Merge { meta: EventMeta },
    ReviseBody { meta: EventMeta, body: String, incorporated_node_ids: Vec<String> },
    Retype { meta: EventMeta, target_node_id: String, node_type: NodeType, old_node_type: Option<NodeType> },
    /// `lifecycle` stays the raw stored string; it is parsed when applied.
    FacetSet { meta: EventMeta, lifecycle: Option<String>, tags_add: Vec<String>, tags_remove: Vec<String> },
    /// Reserved for event types this version does not know; never built.
    Unknown { meta: EventMeta, raw: Box<Event> },
}

pub open spec fn domain_meta(d: DomainEvent) -> EventMeta {
    match d {
        DomainEvent::Create { meta, .. } => meta,
        DomainEvent::Edit { meta, .. } => meta,
        DomainEvent::Retract { meta, .. } => meta,
        DomainEvent::Resolve { meta, .. } => meta,
        DomainEvent::Reopen { meta, .. } => meta,
        DomainEvent::Say { meta, .. } => meta,
        DomainEvent::Link { meta, .. } => meta,
        DomainEvent::State { meta, .. } => meta,
        DomainEvent::Scope { meta, .. } => meta,
        DomainEvent::Verify { meta } => meta,
        DomainEvent::Merge { meta } => meta,
        DomainEvent::ReviseBody { meta, .. } => meta,
        DomainEvent::Retype { meta, .. } => meta,
        DomainEvent::FacetSet { meta, .. } => meta,
        DomainEvent::Unknown { meta, .. } => meta,
    }
}

impl DomainEvent {
    /// The common metadata, whatever the variant.
    pub fn meta(&self) -> (r: &EventMeta)
        ensures
            *r == domain_meta(*self),
    {
        match self {
            DomainEvent::Create { meta, .. } => meta,
            DomainEvent::Edit { meta, .. } => meta,
            DomainEvent::Retract { meta, .. } => meta,
            DomainEvent::Resolve { meta, .. } => meta,
            DomainEvent::Reopen { meta, .. } => meta,
            DomainEvent::Say { meta, .. } => meta,
            DomainEvent::Link { meta, .. } => meta,
            DomainEvent::State { meta, .. } => meta,
            DomainEvent::Scope { meta, .. } => meta,
            DomainEvent::Verify { meta } => meta,
            DomainEvent::Merge { meta } => meta,
            DomainEvent::ReviseBody { meta, .. } => meta,
            DomainEvent::Retype { meta, .. } => meta,
            DomainEvent::FacetSet { meta, .. } => meta,
            DomainEvent::Unknown { meta, .. } => meta,
        }
    }
}

/// Why a stored event failed to project: a field its type requires is
/// absent.
#[derive(Debug, Clone, PartialEq, Eq)]
pub enum ProjectionError {
    MissingRequiredField { field: &'static str },
}

/// `m` carries the metadata of the stored event `e`.
pub open spec fn meta_of(m: EventMeta, e: Event) -> bool {
    &&& m.event_id == e.event_id
    &&& m.thread_id == e.thread_id
    &&& m.event_type == e.event_type
    &&& m.created_at == e.created_at
    &&& m.actor == e.actor
    &&& m.base_rev == e.base_rev
    &&& m.parents@ == e.parents@
}

pub open spec fn missing(r: Result<DomainEvent, ProjectionError>, field: &'static str) -> bool {
    r == Err::<DomainEvent, ProjectionError>(ProjectionError::MissingRequiredField { field })
}

/// `r` is the typed projection of the stored event `e`. Each type needs
/// its payload fields, reported in this order when absent: Create
/// `title` then `kind`; Edit `target_node_id` then `body`; Retract,
/// Resolve and Reopen `target_node_id`; Say `node_type` then `body`; Link
/// either evidence or a target with a relation
/// (`evidence_or_target_link`); State `new_state`; ReviseBody `body`;
/// Retype `target_node_id` then `node_type`. Scope, Verify, Merge and
/// FacetSet need nothing. Every other field is carried over unchanged.
pub open spec fn projects_to(e: Event, r: Result<DomainEvent, ProjectionError>) -> bool {
    match e.event_type {
        EventType::Create => if e.title is None {
            missing(r, "title")
        } else if e.kind is None {
            missing(r, "kind")
        } else {
            r matches Ok(DomainEvent::Create { meta, title, kind, body, branch }) && meta_of(meta, e)
                && title == e.title->0 && kind == e.kind->0 && body == e.body && branch == e.branch
        },
        EventType::Edit => if e.target_node_id is None {
            missing(r, "target_node_id")
        } else if e.body is None {
            missing(r, "body")
        } else {
            r matches Ok(DomainEvent::Edit { meta, target_node_id, body }) && meta_of(meta, e)
                && target_node_id == e.target_node_id->0 && body == e.body->0
        },
        EventType::Retract => if e.target_node_id is None {
            missing(r, "target_node_id")
        } else {
            r matches Ok(DomainEvent::Retract { meta, target_node_id }) && meta_of(meta, e)
                && target_node_id == e.target_node_id->0
        },
        EventType::Resolve => if e.target_node_id is None {
            missing(r, "target_node_id")
        } else {
            r matches Ok(DomainEvent::Resolve { meta, target_node_id }) && meta_of(meta, e)
                && target_node_id == e.target_node_id->0
        },
        EventType::Reopen => if e.target_node_id is None {
            missing(r, "target_node_id")
        } else {
            r matches Ok(DomainEvent::Reopen { meta, target_node_id }) && meta_of(meta, e)
                && target_node_id == e.target_node_id->0
        },
        EventType::Say => if e.node_type is None {
            missing(r, "node_type")
        } else if e.body is None {
            missing(r, "body")
        } else {
            r matches Ok(DomainEvent::Say { meta, node_type, body, reply_to, legacy_subtype, target_node_id })
                && meta_of(meta, e) && node_type == e.node_type->0 && body == e.body->0
                && reply_to == e.reply_to && legacy_subtype == e.legacy_subtype
                && target_node_id == e.target_node_id
        },
        EventType::Link => if e.evidence is Some {
            r matches Ok(DomainEvent::Link { meta, payload }) && meta_of(meta, e)
                && payload == LinkPayload::Evidence(e.evidence->0)
        } else if e.target_node_id is Some && e.link_rel is Some {
            r matches Ok(DomainEvent::Link { meta, payload }) && meta_of(meta, e)
                && payload == (LinkPayload::Thread {
                    target_thread_id: e.target_node_id->0,
                    link_rel: e.link_rel->0,
                })
        } else {
            missing(r, "evidence_or_target_link")
        },
        EventType::State => if e.new_state is None {
            missing(r, "new_state")
        } else {
            r matches Ok(DomainEvent::State { meta, new_state, approvals }) && meta_of(meta, e)
                && new_state == e.new_state->0 && approvals@ == e.approvals@
        },
        EventType::Scope => r matches Ok(DomainEvent::Scope { meta, branch }) && meta_of(meta, e)
            && branch == e.branch,
        EventType::Verify => r matches Ok(DomainEvent::Verify { meta }) && meta_of(meta, e),
        EventType::Merge => r matches Ok(DomainEvent::Merge { meta }) && meta_of(meta, e),
        EventType::ReviseBody => if e.body is None {
            missing(r, "body")
        } else {
            r matches Ok(DomainEvent::ReviseBody { meta, body, incorporated_node_ids }) && meta_of(meta, e)
                && body == e.body->0 && incorporated_node_ids@ == e.incorporated_node_ids@
        },
        EventType::Retype => if e.target_node_id is None {
            missing(r, "target_node_id")
        } else if e.node_type is None {
            missing(r, "node_type")
        } else {
            r matches Ok(DomainEvent::Retype { meta, target_node_id, node_type, old_node_type })
                && meta_of(meta, e) && target_node_id == e.target_node_id->0
                && node_type == e.node_type->0 && old_node_type == e.old_node_type
        },
        EventType::FacetSet => r matches Ok(DomainEvent::FacetSet { meta, lifecycle, tags_add, tags_remove })
            && meta_of(meta, e) && lifecycle == e.lifecycle && tags_add@ == e.tags_add@
            && tags_remove@ == e.tags_remove@,
    }
}

impl Event {
    fn meta_copy(&self) -> (r: EventMeta)
        ensures
            meta_of(r, *self),
    {
        EventMeta {
            event_id: self.event_id.clone(),
            thread_id: self.thread_id.clone(),
            event_type: self.event_type,
            created_at: self.created_at,
            actor: self.actor.clone(),
            base_rev: clone_opt_string(&self.base_rev),
            parents: clone_strings(&self.parents),
        }
    }

    /// Project this stored event into its typed form (see
    /// [`projects_to`]); only structural shape is checked here, not what
    /// the values mean.
    pub fn project(&self) -> (r: Result<DomainEvent, ProjectionError>)
        ensures
            projects_to(*self, r),
    {
        let meta = self.meta_copy();
        match self.event_type {
            EventType::Create => {
                let title = match &self.title {
                    Some(t) => t.clone(),
                    None => return Err(ProjectionError::MissingRequiredField { field: "title" }),
                };
                let kind = match self.kind {
                    Some(k) => k,
                    None => return Err(ProjectionError::MissingRequiredField { field: "kind" }),
                };
                Ok(DomainEvent::Create {
                    meta,
                    title,
                    kind,
                    body: clone_opt_string(&self.body),
                    branch: clone_opt_string(&self.branch),
                })
            },
            EventType::Edit => {
                let target_node_id = match &self.target_node_id {
                    Some(t) => t.clone(),
                    None => return Err(ProjectionError::MissingRequiredField { field: "target_node_id" }),
                };
                let body = match &self.body {
                    Some(b) => b.clone(),
                    None => return Err(ProjectionError::MissingRequiredField { field: "body" }),
                };
                Ok(DomainEvent::Edit { meta, target_node_id, body })
            },
            EventType::Retract => match &self.target_node_id {
                Some(t) => Ok(DomainEvent::Retract { meta, target_node_id: t.clone() }),
                None => Err(ProjectionError::MissingRequiredField { field: "target_node_id" }),
            },
            EventType::Resolve => match &self.target_node_id {
                Some(t) => Ok(DomainEvent::Resolve { meta, target_node_id: t.clone() }),
                None => Err(ProjectionError::MissingRequiredField { field: "target_node_id" }),
            },
            EventType::Reopen => match &self.target_node_id {
                Some(t) => Ok(DomainEvent::Reopen { meta, target_node_id: t.clone() }),
                None => Err(ProjectionError::MissingRequiredField { field: "target_node_id" }),
            },
            EventType::Say => {
                let node_type = match self.node_type {
                    Some(t) => t,
                    None => return Err(ProjectionError::MissingRequiredField { field: "node_type" }),
                };
                let body = match &self.body {
                    Some(b) => b.clone(),
                    None => return Err(ProjectionError::MissingRequiredField { field: "body" }),
                };
                Ok(DomainEvent::Say {
                    meta,
                    node_type,
                    body,
                    reply_to: clone_opt_string(&self.reply_to),
                    legacy_subtype: clone_opt_string(&self.legacy_subtype),
                    target_node_id: clone_opt_string(&self.target_node_id),
                })
            },
            EventType::Link => {
                if let Some(ev) = &self.evidence {
                    return Ok(DomainEvent::Link { meta, payload: LinkPayload::Evidence(ev.duplicate()) });
                }
                match (&self.target_node_id, &self.link_rel) {
                    (Some(target), Some(rel)) => Ok(DomainEvent::Link {
                        meta,
                        payload: LinkPayload::Thread { target_thread_id: target.clone(), link_rel: rel.clone() },
                    }),
                    _ => Err(ProjectionError::MissingRequiredField { field: "evidence_or_target_link" }),
                }
            },
            EventType::State => match &self.new_state {
                Some(st) => Ok(DomainEvent::State {
                    meta,
                    new_state: st.clone(),
                    approvals: clone_approvals(&self.approvals),
                }),
                None => Err(ProjectionError::MissingRequiredField { field: "new_state" }),
            },
            EventType::Scope => Ok(DomainEvent::Scope { meta, branch: clone_opt_string(&self.branch) }),
            EventType::Verify => Ok(DomainEvent::Verify { meta }),
            EventType::Merge => Ok(DomainEvent::Merge { meta }),
            EventType::ReviseBody => match &self.body {
                Some(b) => Ok(DomainEvent::ReviseBody {
                    meta,
                    body: b.clone(),
                    incorporated_node_ids: clone_strings(&self.incorporated_node_ids),
                }),
                None => Err(ProjectionError::MissingRequiredField { field: "body" }),
            },
            EventType::Retype => {
                let target_node_id = match &self.target_node_id {
                    Some(t) => t.clone(),
                    None => return Err(ProjectionError::MissingRequiredField { field: "target_node_id" }),
                };
                let node_type = match self.node_type {
                    Some(t) => t,
                    None => return Err(ProjectionError::MissingRequiredField { field: "node_type" }),
                };
                Ok(DomainEvent::Retype { meta, target_node_id, node_type, old_node_type: self.old_node_type })
            },
            EventType::FacetSet => Ok(DomainEvent::FacetSet {
                meta,
                lifecycle: clone_opt_string(&self.lifecycle),
                tags_add: clone_strings(&self.tags_add),
                tags_remove: clone_strings(&self.tags_remove),
            }),
        }
    }
}

} // verus!
