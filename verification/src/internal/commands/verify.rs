//! `git forum verify`: the report of what blocks a thread, and how to
//! clear it.

use vstd::prelude::*;

use crate::internal::event::{
    is_walk, names_of, status_from_name_lenient, status_name, str_views, targets, valid_targets, find_path,
    NodeType, ThreadStatus,
};
use crate::internal::node::Node;
use crate::internal::policy::{
    category_definition, category_lifecycle, check_guards, guard_rules, violation_view, violations_of, GuardViolation,
    Policy,
};
use crate::internal::thread::{ThreadKind, ThreadState};
use crate::text::{
    append_chars, chars_of, join, join_chars, prefix_within, prefix_within_exec, push_str,
    slice_range, str_eq, string_of, views,
};
use vstd::utf8::{encode_utf8, is_char_boundary};

verus! {

pub struct VerifyReport {
    pub thread_id: String,
    pub violations: Vec<GuardViolation>,
    /// Guard violations of a milestone state reached through intermediate
    /// transitions.
    pub lookahead: Vec<LookaheadEntry>,
    /// Notes on threads linked from the verified one; they do not affect
    /// the result.
    pub linked_advisories: Vec<LinkedAdvisory>,
}

impl VerifyReport {
    /// Verification passes when no guard is violated.
    pub fn passed(&self) -> (r: bool)
        ensures
            r == (self.violations@.len() == 0),
    {
        self.violations.len() == 0
    }
}

pub struct LookaheadEntry {
    /// The transition checked (`review -> done`).
    pub transition: String,
    /// The path from the current state (`open → review → done`).
    pub path: String,
    /// The guard violations that would block it.
    pub violations: Vec<GuardViolation>,
}

pub struct LinkedAdvisory {
    pub linked_thread_id: String,
    pub linked_kind: ThreadKind,
    pub linked_status: String,
    pub rel: String,
    pub message: String,
}

pub struct VerifyArgs {
    pub thread_id: String,
}

/// A node of type `t` that is still open: neither resolved, retracted
/// nor incorporated.
pub open spec fn is_open_node(n: Node, t: NodeType) -> bool {
    n.node_type == t && !n.resolved && !n.retracted && !n.incorporated
}

/// The first 16 bytes of a node ID, as characters.
pub open spec fn short_node_id(id: Seq<char>) -> Seq<char> {
    id.take(prefix_within(id, 16) as int)
}

/// The short IDs of the open nodes of type `t`, in order.
pub open spec fn open_node_ids(nodes: Seq<Node>, t: NodeType) -> Seq<Seq<char>>
    decreases nodes.len(),
{
    if nodes.len() == 0 {
        seq![]
    } else {
        let rest = open_node_ids(nodes.drop_last(), t);
        if is_open_node(nodes.last(), t) {
            rest.push(short_node_id(nodes.last().node_id@))
        } else {
            rest
        }
    }
}

/// The fix suggested for a violated guard rule: which open nodes to
/// resolve, or which approval to supply; empty when there is nothing to
/// suggest.
pub open spec fn remediation_text(rule: Seq<char>, nodes: Seq<Node>, thread_id: Seq<char>) -> Seq<char> {
    if rule == "no_open_actions"@ {
        let ids = open_node_ids(nodes, NodeType::Action);
        if ids.len() == 0 {
            Seq::<char>::empty()
        } else {
            "resolve each with `resolve "@ + thread_id + " <NODE_ID>` (open: "@ + join(ids, ", "@)
                + ") or use --resolve-open-actions"@
        }
    } else if rule == "no_open_objections"@ {
        let ids = open_node_ids(nodes, NodeType::Objection);
        if ids.len() == 0 {
            Seq::<char>::empty()
        } else {
            "resolve each with `resolve "@ + thread_id + " <NODE_ID>` (open: "@ + join(ids, ", "@) + ")"@
        }
    } else if rule == "one_human_approval"@ {
        "supply --approve human/<name>"@
    } else {
        Seq::<char>::empty()
    }
}

/// Cutting a node ID at 16 bytes falls on a character boundary.
pub open spec fn cut_ok(id: Seq<char>) -> bool {
    encode_utf8(id).len() <= 16 || is_char_boundary(encode_utf8(id), 16)
}

fn open_ids_exec(nodes: &Vec<Node>, t: NodeType) -> (r: Vec<Vec<char>>)
    ensures
        views(r@) == open_node_ids(nodes@, t),
{
    let mut out: Vec<Vec<char>> = Vec::new();
    let mut i: usize = 0;
    while i < nodes.len()
        invariant
            i <= nodes@.len(),
            views(out@) == open_node_ids(nodes@.take(i as int), t),
        decreases nodes@.len() - i,
    {
        let n = &nodes[i];
        proof {
            assert(nodes@.take(i + 1).drop_last() =~= nodes@.take(i as int));
            assert(nodes@.take(i + 1).last() == nodes@[i as int]);
        }
        if n.node_type == t && !n.resolved && !n.retracted && !n.incorporated {
            let cs = chars_of(n.node_id.as_str());
            let k = prefix_within_exec(cs.as_slice(), 16);
            let short = slice_range(cs.as_slice(), 0, k);
            let ghost before = views(out@);
            out.push(short);
            proof {
                assert(short@ =~= short_node_id(n.node_id@));
                assert(views(out@) =~= before.push(short@));
            }
        }
        i += 1;
    }
    proof {
        assert(nodes@.take(i as int) =~= nodes@);
    }
    out
}

fn open_hint(ids: &Vec<Vec<char>>, thread_id: &str, tail: &str) -> (r: String)
    ensures
        r@ == "resolve each with `resolve "@ + thread_id@ + " <NODE_ID>` (open: "@ + join(views(ids@), ", "@)
            + tail@,
{
    let mut v = chars_of("resolve each with `resolve ");
    let t = chars_of(thread_id);
    append_chars(&mut v, t.as_slice());
    push_str(&mut v, " <NODE_ID>` (open: ");
    let sep = chars_of(", ");
    let j = join_chars(ids, sep.as_slice());
    append_chars(&mut v, j.as_slice());
    push_str(&mut v, tail);
    string_of(v.as_slice())
}

/// The fix to print under a violated guard (see [`remediation_text`]).
/// Node IDs are cut at 16 bytes, which must fall on a character boundary.
pub fn remediation_hint(rule: &str, state: &ThreadState, thread_id: &str) -> (r: String)
    requires
        forall|i: int|
            0 <= i < state.nodes@.len() && (is_open_node(state.nodes@[i], NodeType::Action) || is_open_node(
                state.nodes@[i],
                NodeType::Objection,
            )) ==> cut_ok(state.nodes@[i].node_id@),
    ensures
        r@ == remediation_text(rule@, state.nodes@, thread_id@),
{
    if str_eq(rule, "no_open_actions") {
        let ids = open_ids_exec(&state.nodes, NodeType::Action);
        if ids.len() == 0 {
            return String::new();
        }
        open_hint(&ids, thread_id, ") or use --resolve-open-actions")
    } else if str_eq(rule, "no_open_objections") {
        let ids = open_ids_exec(&state.nodes, NodeType::Objection);
        if ids.len() == 0 {
            return String::new();
        }
        open_hint(&ids, thread_id, ")")
    } else if str_eq(rule, "one_human_approval") {
        crate::text::string_from("supply --approve human/<name>")
    } else {
        String::new()
    }
}

/// The statuses a thread can move to next under its category, in graph
/// order; none when the category or the status is unknown.
pub open spec fn next_targets(s: ThreadState) -> Seq<Seq<char>> {
    match (category_lifecycle(s.category@), status_from_name_lenient(s.status@)) {
        (Some(l), Some(a)) => names_of(targets(l, a)),
        _ => seq![],
    }
}

/// The statuses a thread can move to next (see [`next_targets`]).
pub(crate) fn next_targets_exec(s: &ThreadState) -> (r: Vec<&'static str>)
    ensures
        str_views(r@) == next_targets(*s),
{
    match category_definition(s.category.as_str()) {
        Some(d) => valid_targets(d.lifecycle, s.status.as_str()),
        None => {
            let r: Vec<&'static str> = Vec::new();
            proof {
                assert(str_views(r@) =~= next_targets(*s));
            }
            r
        },
    }
}

fn contains_name(v: &Vec<&'static str>, x: &str) -> (r: bool)
    ensures
        r == str_views(v@).contains(x@),
{
    let mut i: usize = 0;
    while i < v.len()
        invariant
            i <= v@.len(),
            forall|j: int| 0 <= j < i ==> v@[j]@ != x@,
        decreases v@.len() - i,
    {
        if str_eq(v[i], x) {
            proof {
                assert(str_views(v@)[i as int] == x@);
            }
            return true;
        }
        i += 1;
    }
    proof {
        if str_views(v@).contains(x@) {
            let k = choose|k: int| 0 <= k < str_views(v@).len() && str_views(v@)[k] == x@;
            assert(v@[k]@ == x@);
        }
    }
    false
}

pub open spec fn lookahead_view(v: Seq<LookaheadEntry>) -> Seq<(Seq<char>, Seq<char>, Seq<(Seq<char>, Seq<char>)>)> {
    Seq::new(v.len(), |i: int| (v[i].transition@, v[i].path@, violation_view(v[i].violations@)))
}

/// The lookahead for a chosen path `q` to `done` (start excluded): when
/// the path takes at least two steps and the guards of its last step fail,
/// one entry naming that step, the whole path from the current status, and
/// the violations; else none.
pub open spec fn lookahead_with(p: Policy, s: ThreadState, q: Seq<ThreadStatus>) -> Seq<
    (Seq<char>, Seq<char>, Seq<(Seq<char>, Seq<char>)>),
> {
    if q.len() < 2 {
        seq![]
    } else {
        let from = status_name(q[q.len() - 2]);
        let v = violations_of(guard_rules(p, s, from, "done"@), s);
        if v.len() == 0 {
            seq![]
        } else {
            seq![(from + " -> done"@, join(seq![s.status@] + names_of(q), " → "@), v)]
        }
    }
}

/// A shortest legal walk from `a` to `b`.
pub open spec fn is_shortest_walk(l: crate::internal::event::Lifecycle, a: ThreadStatus, q: Seq<ThreadStatus>, b: ThreadStatus) -> bool {
    is_walk(l, a, q, b) && forall|q2: Seq<ThreadStatus>| #[trigger] is_walk(l, a, q2, b) ==> q.len() <= q2.len()
}

/// What the lookahead of a thread may be: nothing when `done` is a
/// direct next status, when the category or status is unknown, or when no
/// walk leads there; else the lookahead along a shortest walk (see
/// [`lookahead_with`]).
pub open spec fn lookahead_spec(
    p: Policy,
    s: ThreadState,
    v: Seq<(Seq<char>, Seq<char>, Seq<(Seq<char>, Seq<char>)>)>,
) -> bool {
    if next_targets(s).contains("done"@) {
        v.len() == 0
    } else {
        match (category_lifecycle(s.category@), status_from_name_lenient(s.status@)) {
            (Some(l), Some(a)) => ((forall|q: Seq<ThreadStatus>| !#[trigger] is_walk(l, a, q, ThreadStatus::Done))
                ==> v.len() == 0) && ((exists|q: Seq<ThreadStatus>| #[trigger] is_walk(l, a, q, ThreadStatus::Done))
                ==> exists|q: Seq<ThreadStatus>|
                #![trigger is_shortest_walk(l, a, q, ThreadStatus::Done)]
                is_shortest_walk(l, a, q, ThreadStatus::Done) && v == lookahead_with(p, s, q)),
            _ => v.len() == 0,
        }
    }
}

/// Guards that would block reaching `done` later (see [`lookahead_spec`]).
pub fn build_lookahead(state: &ThreadState, policy: &Policy) -> (r: Vec<LookaheadEntry>)
    ensures
        lookahead_spec(*policy, *state, lookahead_view(r@)),
{
    proof {
        reveal_strlit("done");
    }
    let none: Vec<LookaheadEntry> = Vec::new();
    let targets = next_targets_exec(state);
    if contains_name(&targets, "done") {
        return none;
    }
    let d = match category_definition(state.category.as_str()) {
        Some(d) => d,
        None => return none,
    };
    let ghost l = d.lifecycle;
    proof {
        crate::internal::event::lemma_done_name();
    }
    let path = match find_path(d.lifecycle, state.status.as_str(), "done") {
        Some(p) => p,
        None => return none,
    };
    let ghost a = status_from_name_lenient(state.status@).unwrap();
    let ghost q = choose|q: Seq<ThreadStatus>|
        #![trigger is_walk(l, a, q, ThreadStatus::Done)]
        is_walk(l, a, q, ThreadStatus::Done) && str_views(path@) == names_of(q) && forall|q2: Seq<ThreadStatus>|
            #[trigger] is_walk(l, a, q2, ThreadStatus::Done) ==> q.len() <= q2.len();
    assert(is_shortest_walk(l, a, q, ThreadStatus::Done));
    assert(path@.len() == q.len()) by {
        assert(str_views(path@).len() == names_of(q).len());
    }
    if path.len() < 2 {
        proof {
            assert(lookahead_view(none@) =~= lookahead_with(*policy, *state, q));
        }
        return none;
    }
    let from_state = path[path.len() - 2];
    assert(from_state@ == status_name(q[q.len() - 2])) by {
        assert(str_views(path@)[path@.len() - 2] == names_of(q)[q.len() - 2]);
    }
    let violations = check_guards(policy, state, from_state, "done");
    if violations.len() == 0 {
        proof {
            assert(violation_view(violations@).len() == 0);
            assert(lookahead_view(none@) =~= lookahead_with(*policy, *state, q));
        }
        return none;
    }
    let mut parts: Vec<Vec<char>> = Vec::new();
    parts.push(chars_of(state.status.as_str()));
    let mut i: usize = 0;
    while i < path.len()
        invariant
            i <= path@.len(),
            views(parts@) == seq![state.status@] + str_views(path@).take(i as int),
        decreases path@.len() - i,
    {
        let ghost before = views(parts@);
        parts.push(chars_of(path[i]));
        proof {
            assert(views(parts@) =~= before.push(path@[i as int]@));
            assert(str_views(path@).take(i + 1) =~= str_views(path@).take(i as int).push(path@[i as int]@));
        }
        i += 1;
    }
    proof {
        assert(str_views(path@).take(i as int) =~= names_of(q));
    }
    let sep = chars_of(" → ");
    let joined = join_chars(&parts, sep.as_slice());
    let mut t = chars_of(from_state);
    push_str(&mut t, " -> done");
    let mut out: Vec<LookaheadEntry> = Vec::new();
    out.push(LookaheadEntry { transition: string_of(t.as_slice()), path: string_of(joined.as_slice()), violations });
    proof {
        assert(lookahead_view(out@) =~= lookahead_with(*policy, *state, q));
    }
    out
}

} // verus!
