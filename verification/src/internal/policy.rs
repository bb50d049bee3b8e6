//! Thread categories (`rfc`, `task`): their statuses and transitions, the
//! kind presets that map onto them, and the labels derived from a
//! category and its tags.

use vstd::prelude::*;

use crate::internal::event::{
    Lifecycle, ThreadStatus, edge_list, lifecycle_allows, lifecycle_name, status_name, allows_exec,
    lifecycle_initial,
};
use crate::text::{chars_of, decimal, push_str, push_usize, str_eq, string_of, strs};
use crate::internal::commands::thread_new::{has_tag, legacy_lifecycle_for_category};
use crate::internal::commands::brief::{open_count, open_count_exec};
use crate::internal::evidence::{Evidence, EvidenceKind};
use crate::internal::node::{Node, NodeType};
use crate::internal::thread::ThreadState;

verus! {

/// The lifecycle a category's statuses follow: `rfc` is a proposal,
/// `task` is execution.
pub open spec fn category_lifecycle(name: Seq<char>) -> Option<Lifecycle> {
    if name == "rfc"@ {
        Some(Lifecycle::Proposal)
    } else if name == "task"@ {
        Some(Lifecycle::Execution)
    } else {
        None
    }
}

/// The unified-graph edges among the first `n` whose both ends the
/// lifecycle allows, in graph order.
pub open spec fn category_edges_upto(l: Lifecycle, n: nat) -> Seq<(ThreadStatus, ThreadStatus)>
    decreases n,
{
    if n == 0 {
        seq![]
    } else {
        let e = edge_list()[n - 1];
        let rest = category_edges_upto(l, (n - 1) as nat);
        if lifecycle_allows(l, e.0) && lifecycle_allows(l, e.1) {
            rest.push(e)
        } else {
            rest
        }
    }
}

/// The transitions of a category with lifecycle `l`.
pub open spec fn category_edges(l: Lifecycle) -> Seq<(ThreadStatus, ThreadStatus)> {
    category_edges_upto(l, edge_list().len())
}

/// A built-in category: its name, initial status and transitions.
pub struct CategoryDefinition {
    pub name: &'static str,
    pub lifecycle: Lifecycle,
    pub initial_status: ThreadStatus,
    pub transitions: Vec<(ThreadStatus, ThreadStatus)>,
}

fn category_edges_exec(l: Lifecycle) -> (r: Vec<(ThreadStatus, ThreadStatus)>)
    ensures
        r@ == category_edges(l),
{
    let edges = crate::internal::event::unified_edges();
    let mut out: Vec<(ThreadStatus, ThreadStatus)> = Vec::new();
    let mut i: usize = 0;
    while i < edges.len()
        invariant
            i <= edges@.len(),
            edges@ == edge_list(),
            out@ == category_edges_upto(l, i as nat),
        decreases edges@.len() - i,
    {
        let e = edges[i];
        if allows_exec(l, e.0) && allows_exec(l, e.1) {
            out.push(e);
        }
        i += 1;
    }
    out
}

/// The built-in definition of a category, if `name` is one.
pub fn category_definition(name: &str) -> (r: Option<CategoryDefinition>)
    ensures
        match r {
            Some(d) => category_lifecycle(name@) == Some(d.lifecycle) && d.name@ == name@
                && d.initial_status == lifecycle_initial(d.lifecycle)
                && d.transitions@ == category_edges(d.lifecycle),
            None => category_lifecycle(name@) is None,
        },
{
    if str_eq(name, "rfc") {
        Some(CategoryDefinition {
            name: "rfc",
            lifecycle: Lifecycle::Proposal,
            initial_status: ThreadStatus::Draft,
            transitions: category_edges_exec(Lifecycle::Proposal),
        })
    } else if str_eq(name, "task") {
        Some(CategoryDefinition {
            name: "task",
            lifecycle: Lifecycle::Execution,
            initial_status: ThreadStatus::Open,
            transitions: category_edges_exec(Lifecycle::Execution),
        })
    } else {
        None
    }
}

// ---------------------------------------------------------------------------
// Labels
// ---------------------------------------------------------------------------

/// The lifecycle read back from a category: `task` with the `decision` tag
/// is a record, other `task` threads are execution, anything else is a
/// proposal.
pub open spec fn lifecycle_for_category(category: Seq<char>, tags: Seq<Seq<char>>) -> Lifecycle {
    if category == "task"@ {
        if tags.contains("decision"@) {
            Lifecycle::Record
        } else {
            Lifecycle::Execution
        }
    } else {
        Lifecycle::Proposal
    }
}

/// The lifecycle label of a category and tags.
pub fn lifecycle_label_for(category: &str, tags: &[String]) -> (r: &'static str)
    ensures
        r@ == lifecycle_name(lifecycle_for_category(category@, strs(tags@))),
{
    legacy_lifecycle_for_category(category, tags).as_str()
}

// ---------------------------------------------------------------------------
// Kind presets
// ---------------------------------------------------------------------------

/// A kind preset of `git forum new <kind>`: the category and the tag it
/// gives a new thread.
#[derive(Clone, Copy)]
pub struct CategoryPreset {
    pub name: &'static str,
    pub category: &'static str,
    pub tag: Option<&'static str>,
}

/// The preset names, in listing order.
pub open spec fn preset_names() -> Seq<Seq<char>> {
    seq!["rfc"@, "dec"@, "task"@, "issue"@, "bug"@]
}

/// The canonical preset a name selects: the listed names, plus the
/// historical kind spellings `ask` (issue) and `job` (task).
pub open spec fn preset_canonical(name: Seq<char>) -> Option<Seq<char>> {
    if name == "rfc"@ || name == "dec"@ || name == "task"@ || name == "issue"@ || name == "bug"@ {
        Some(name)
    } else if name == "ask"@ {
        Some("issue"@)
    } else if name == "job"@ {
        Some("task"@)
    } else {
        None
    }
}

/// The category of a canonical preset.
pub open spec fn preset_category(name: Seq<char>) -> Seq<char> {
    if name == "rfc"@ {
        "rfc"@
    } else {
        "task"@
    }
}

/// The tag of a canonical preset.
pub open spec fn preset_tag(name: Seq<char>) -> Option<Seq<char>> {
    if name == "dec"@ {
        Some("decision"@)
    } else if name == "task"@ {
        Some("task"@)
    } else if name == "issue"@ || name == "bug"@ {
        Some("bug"@)
    } else {
        None
    }
}

proof fn lemma_preset_literals()
    ensures
        "rfc"@.len() == 3 && "rfc"@[0] == 'r',
        "dec"@.len() == 3 && "dec"@[0] == 'd',
        "task"@.len() == 4 && "task"@[0] == 't',
        "issue"@.len() == 5 && "issue"@[0] == 'i',
        "bug"@.len() == 3 && "bug"@[0] == 'b',
        "ask"@.len() == 3 && "ask"@[0] == 'a',
        "job"@.len() == 3 && "job"@[0] == 'j',
        "decision"@.len() == 8 && "decision"@[0] == 'd',
{
    reveal_strlit("rfc");
    reveal_strlit("dec");
    reveal_strlit("task");
    reveal_strlit("issue");
    reveal_strlit("bug");
    reveal_strlit("ask");
    reveal_strlit("job");
    reveal_strlit("decision");
}

fn preset_row(name: &'static str) -> (r: CategoryPreset)
    requires
        preset_canonical(name@) == Some(name@),
    ensures
        r.name@ == name@,
        r.category@ == preset_category(name@),
        match r.tag {
            Some(t) => preset_tag(name@) == Some(t@),
            None => preset_tag(name@) is None,
        },
{
    proof {
        lemma_preset_literals();
    }
    if str_eq(name, "rfc") {
        CategoryPreset { name, category: "rfc", tag: None }
    } else if str_eq(name, "dec") {
        CategoryPreset { name, category: "task", tag: Some("decision") }
    } else if str_eq(name, "task") {
        CategoryPreset { name, category: "task", tag: Some("task") }
    } else {
        CategoryPreset { name, category: "task", tag: Some("bug") }
    }
}

/// The kind presets, in listing order.
pub fn presets() -> (r: Vec<CategoryPreset>)
    ensures
        r@.len() == preset_names().len(),
        forall|i: int| 0 <= i < r@.len() ==> (#[trigger] r@[i]).name@ == preset_names()[i],
{
    proof {
        reveal_strlit("rfc");
        reveal_strlit("dec");
        reveal_strlit("task");
        reveal_strlit("issue");
        reveal_strlit("bug");
    }
    let mut v: Vec<CategoryPreset> = Vec::new();
    v.push(preset_row("rfc"));
    v.push(preset_row("dec"));
    v.push(preset_row("task"));
    v.push(preset_row("issue"));
    v.push(preset_row("bug"));
    v
}

/// The preset a kind name selects (see [`preset_canonical`]).
pub fn preset_lookup(name: &str) -> (r: Option<CategoryPreset>)
    ensures
        match r {
            Some(p) => preset_canonical(name@) == Some(p.name@) && p.category@ == preset_category(p.name@)
                && match p.tag {
                    Some(t) => preset_tag(p.name@) == Some(t@),
                    None => preset_tag(p.name@) is None,
                },
            None => preset_canonical(name@) is None,
        },
{
    proof {
        lemma_preset_literals();
    }
    if str_eq(name, "rfc") {
        Some(preset_row("rfc"))
    } else if str_eq(name, "dec") {
        Some(preset_row("dec"))
    } else if str_eq(name, "task") || str_eq(name, "job") {
        Some(preset_row("task"))
    } else if str_eq(name, "issue") || str_eq(name, "ask") {
        Some(preset_row("issue"))
    } else if str_eq(name, "bug") {
        Some(preset_row("bug"))
    } else {
        None
    }
}

/// The kind label of a category and tags: `rfc` for the rfc category;
/// for tasks `dec` with the `decision` tag, else `issue` with the `bug`
/// tag, else `task`.
pub open spec fn kind_label(category: Seq<char>, tags: Seq<Seq<char>>) -> Seq<char> {
    if category == "rfc"@ {
        "rfc"@
    } else if tags.contains("decision"@) {
        "dec"@
    } else if tags.contains("bug"@) {
        "issue"@
    } else {
        "task"@
    }
}

/// The kind label of a category and tags (see [`kind_label`]).
pub fn kind_label_for(category: &str, tags: &[String]) -> (r: &'static str)
    ensures
        r@ == kind_label(category@, strs(tags@)),
{
    if str_eq(category, "rfc") {
        "rfc"
    } else if has_tag(tags, "decision") {
        "dec"
    } else if has_tag(tags, "bug") {
        "issue"
    } else {
        "task"
    }
}

/// A guard that blocks a transition: the rule's name and why it fails.
#[derive(Debug, Clone)]
pub struct GuardViolation {
    pub rule: String,
    pub reason: String,
}

// ---------------------------------------------------------------------------
// Policy: guards and operation checks, per category
// ---------------------------------------------------------------------------

/// A rule that a guard checks before a transition.
#[derive(Debug, Clone, Copy, PartialEq, Eq, Structural)]
pub enum GuardRule {
    /// Every objection node is resolved or retracted.
    NoOpenObjections,
    /// Every action node is resolved or retracted.
    NoOpenActions,
    /// At least one approval node that is not retracted.
    OneApproval,
    /// At least one evidence item of kind `commit`.
    HasCommitEvidence,
}

/// The name a rule has in the policy file.
pub open spec fn guard_rule_name(r: GuardRule) -> Seq<char> {
    match r {
        GuardRule::NoOpenObjections => "no_open_objections"@,
        GuardRule::NoOpenActions => "no_open_actions"@,
        GuardRule::OneApproval => "one_approval"@,
        GuardRule::HasCommitEvidence => "has_commit_evidence"@,
    }
}

impl GuardRule {
    pub fn as_str(self) -> (r: &'static str)
        ensures
            r@ == guard_rule_name(self),
    {
        match self {
            GuardRule::NoOpenObjections => "no_open_objections",
            GuardRule::NoOpenActions => "no_open_actions",
            GuardRule::OneApproval => "one_approval",
            GuardRule::HasCommitEvidence => "has_commit_evidence",
        }
    }
}

/// How many approval nodes are not retracted.
pub open spec fn approval_count(nodes: Seq<Node>) -> nat
    decreases nodes.len(),
{
    if nodes.len() == 0 {
        0
    } else {
        approval_count(nodes.drop_last()) + if nodes.last().node_type == NodeType::Approval
            && !nodes.last().retracted {
            1nat
        } else {
            0nat
        }
    }
}

/// How many evidence items are commits.
pub open spec fn commit_evidence_count(items: Seq<Evidence>) -> nat
    decreases items.len(),
{
    if items.len() == 0 {
        0
    } else {
        commit_evidence_count(items.drop_last()) + if items.last().kind == EvidenceKind::Commit {
            1nat
        } else {
            0nat
        }
    }
}

/// Whether a thread satisfies a rule.
pub open spec fn guard_holds(r: GuardRule, s: ThreadState) -> bool {
    match r {
        GuardRule::NoOpenObjections => open_count(s.nodes@, NodeType::Objection) == 0,
        GuardRule::NoOpenActions => open_count(s.nodes@, NodeType::Action) == 0,
        GuardRule::OneApproval => approval_count(s.nodes@) > 0,
        GuardRule::HasCommitEvidence => commit_evidence_count(s.evidence_items@) > 0,
    }
}

/// Why a rule fails for a thread.
pub open spec fn guard_reason(r: GuardRule, s: ThreadState) -> Seq<char> {
    match r {
        GuardRule::NoOpenObjections => decimal(open_count(s.nodes@, NodeType::Objection))
            + " open objection(s) remain"@,
        GuardRule::NoOpenActions => decimal(open_count(s.nodes@, NodeType::Action)) + " open action(s) remain"@,
        GuardRule::OneApproval => "no approval node yet"@,
        GuardRule::HasCommitEvidence => "no commit evidence attached"@,
    }
}

/// Which statuses allow body and node revision (`None`: not restricted).
#[derive(Debug, Clone, Default)]
pub struct ReviseRules {
    pub allow_body_revise: Option<Vec<String>>,
    pub allow_node_revise: Option<Vec<String>>,
}

/// Which statuses allow adding evidence (`None`: not restricted).
#[derive(Debug, Clone, Default)]
pub struct EvidenceRules {
    pub allow_evidence: Option<Vec<String>>,
}

/// The rules of one transition, keyed `from->to`.
#[derive(Debug, Clone)]
pub struct TransitionGuard {
    pub transition: String,
    pub rules: Vec<GuardRule>,
}

/// The node types allowed in one status.
#[derive(Debug, Clone)]
pub struct StatusNodeTypes {
    pub status: String,
    pub types: Vec<NodeType>,
}

/// The policy of one category. Where a key occurs twice, the first entry
/// counts.
#[derive(Debug, Clone, Default)]
pub struct CategoryPolicy {
    pub guards: Vec<TransitionGuard>,
    pub allowed_node_types: Vec<StatusNodeTypes>,
    pub revise: Option<ReviseRules>,
    pub evidence: Option<EvidenceRules>,
}

#[derive(Debug, Clone)]
pub struct NamedCategoryPolicy {
    pub name: String,
    pub policy: CategoryPolicy,
}

/// The loaded policy: one entry per category (the first entry of a name
/// counts). The default policy has none, and so no guards.
#[derive(Debug, Clone, Default)]
pub struct Policy {
    pub categories: Vec<NamedCategoryPolicy>,
}

/// The first category entry called `name`.
pub open spec fn category_policy_in(cs: Seq<NamedCategoryPolicy>, name: Seq<char>) -> Option<CategoryPolicy>
    decreases cs.len(),
{
    if cs.len() == 0 {
        None
    } else if cs[0].name@ == name {
        Some(cs[0].policy)
    } else {
        category_policy_in(cs.drop_first(), name)
    }
}

/// The rules of the first guard entry for `key`.
pub open spec fn guard_rules_in(gs: Seq<TransitionGuard>, key: Seq<char>) -> Option<Seq<GuardRule>>
    decreases gs.len(),
{
    if gs.len() == 0 {
        None
    } else if gs[0].transition@ == key {
        Some(gs[0].rules@)
    } else {
        guard_rules_in(gs.drop_first(), key)
    }
}

/// The node types of the first entry for `status`.
pub open spec fn node_types_in(ls: Seq<StatusNodeTypes>, status: Seq<char>) -> Option<Seq<NodeType>>
    decreases ls.len(),
{
    if ls.len() == 0 {
        None
    } else if ls[0].status@ == status {
        Some(ls[0].types@)
    } else {
        node_types_in(ls.drop_first(), status)
    }
}

/// The key of a transition in a category's guard table.
pub open spec fn transition_key(from: Seq<char>, to: Seq<char>) -> Seq<char> {
    from + "->"@ + to
}

/// The rules the policy puts on a thread's transition `from -> to`:
/// those of its category's entry for that key, else none.
pub open spec fn guard_rules(p: Policy, s: ThreadState, from: Seq<char>, to: Seq<char>) -> Seq<GuardRule> {
    match category_policy_in(p.categories@, s.category@) {
        Some(cp) => match guard_rules_in(cp.guards@, transition_key(from, to)) {
            Some(rs) => rs,
            None => seq![],
        },
        None => seq![],
    }
}

/// The failing rules, in order, each as its name and reason.
pub open spec fn violations_of(rules: Seq<GuardRule>, s: ThreadState) -> Seq<(Seq<char>, Seq<char>)>
    decreases rules.len(),
{
    if rules.len() == 0 {
        seq![]
    } else {
        let rest = violations_of(rules.drop_last(), s);
        if guard_holds(rules.last(), s) {
            rest
        } else {
            rest.push((guard_rule_name(rules.last()), guard_reason(rules.last(), s)))
        }
    }
}

pub open spec fn violation_view(v: Seq<GuardViolation>) -> Seq<(Seq<char>, Seq<char>)> {
    Seq::new(v.len(), |i: int| (v[i].rule@, v[i].reason@))
}

/// No violation is reported exactly when every rule holds.
pub proof fn lemma_violations_empty(rules: Seq<GuardRule>, s: ThreadState)
    ensures
        violations_of(rules, s).len() == 0 <==> forall|i: int| 0 <= i < rules.len() ==> guard_holds(#[trigger] rules[i], s),
    decreases rules.len(),
{
    if rules.len() > 0 {
        lemma_violations_empty(rules.drop_last(), s);
        if violations_of(rules, s).len() == 0 {
            assert forall|i: int| 0 <= i < rules.len() implies guard_holds(#[trigger] rules[i], s) by {
                if i < rules.len() - 1 {
                    assert(rules.drop_last()[i] == rules[i]);
                }
            }
        }
        if forall|i: int| 0 <= i < rules.len() ==> guard_holds(#[trigger] rules[i], s) {
            assert forall|i: int| 0 <= i < rules.drop_last().len() implies guard_holds(#[trigger] rules.drop_last()[i], s) by {
                assert(rules.drop_last()[i] == rules[i]);
            }
            assert(guard_holds(rules[rules.len() - 1], s));
        }
    }
}

/// A guard check passes (reports no violation) exactly when every rule the
/// policy puts on the transition holds for the thread; a transition the
/// policy puts no rule on always passes.
pub proof fn lemma_check_guards_pass(p: Policy, s: ThreadState, from: Seq<char>, to: Seq<char>)
    ensures
        violations_of(guard_rules(p, s, from, to), s).len() == 0 <==> forall|i: int|
            0 <= i < guard_rules(p, s, from, to).len() ==> guard_holds(#[trigger] guard_rules(p, s, from, to)[i], s),
        guard_rules(p, s, from, to).len() == 0 ==> violations_of(guard_rules(p, s, from, to), s).len() == 0,
{
    lemma_violations_empty(guard_rules(p, s, from, to), s);
}

proof fn lemma_approval_count_positive(nodes: Seq<Node>)
    ensures
        approval_count(nodes) > 0 <==> exists|i: int|
            0 <= i < nodes.len() && (#[trigger] nodes[i]).node_type == NodeType::Approval && !nodes[i].retracted,
    decreases nodes.len(),
{
    if nodes.len() > 0 {
        let p = nodes.drop_last();
        lemma_approval_count_positive(p);
        if exists|i: int| 0 <= i < p.len() && (#[trigger] p[i]).node_type == NodeType::Approval && !p[i].retracted {
            let i = choose|i: int| 0 <= i < p.len() && (#[trigger] p[i]).node_type == NodeType::Approval && !p[i].retracted;
            assert(nodes[i] == p[i]);
        }
        if exists|i: int| 0 <= i < nodes.len() && (#[trigger] nodes[i]).node_type == NodeType::Approval && !nodes[i].retracted {
            let i = choose|i: int| 0 <= i < nodes.len() && (#[trigger] nodes[i]).node_type == NodeType::Approval && !nodes[i].retracted;
            if i < p.len() {
                assert(p[i] == nodes[i]);
            }
        }
    }
}

proof fn lemma_open_count_zero(nodes: Seq<Node>, t: NodeType)
    ensures
        open_count(nodes, t) == 0 <==> forall|i: int|
            0 <= i < nodes.len() && (#[trigger] nodes[i]).node_type == t ==> nodes[i].resolved || nodes[i].retracted
                || nodes[i].incorporated,
    decreases nodes.len(),
{
    if nodes.len() > 0 {
        let p = nodes.drop_last();
        lemma_open_count_zero(p, t);
        if open_count(nodes, t) == 0 {
            assert forall|i: int| 0 <= i < nodes.len() && (#[trigger] nodes[i]).node_type == t implies nodes[i].resolved
                || nodes[i].retracted || nodes[i].incorporated by {
                if i < p.len() {
                    assert(p[i] == nodes[i]);
                }
            }
        }
        if forall|i: int|
            0 <= i < nodes.len() && (#[trigger] nodes[i]).node_type == t ==> nodes[i].resolved || nodes[i].retracted
                || nodes[i].incorporated {
            assert forall|i: int| 0 <= i < p.len() && (#[trigger] p[i]).node_type == t implies p[i].resolved
                || p[i].retracted || p[i].incorporated by {
                assert(p[i] == nodes[i]);
            }
            assert(nodes[nodes.len() - 1] == nodes.last());
        }
    }
}

proof fn lemma_commit_count_positive(items: Seq<Evidence>)
    ensures
        commit_evidence_count(items) > 0 <==> exists|i: int| 0 <= i < items.len() && (#[trigger] items[i]).kind == EvidenceKind::Commit,
    decreases items.len(),
{
    if items.len() > 0 {
        let p = items.drop_last();
        lemma_commit_count_positive(p);
        if exists|i: int| 0 <= i < p.len() && (#[trigger] p[i]).kind == EvidenceKind::Commit {
            let i = choose|i: int| 0 <= i < p.len() && (#[trigger] p[i]).kind == EvidenceKind::Commit;
            assert(items[i] == p[i]);
        }
        if exists|i: int| 0 <= i < items.len() && (#[trigger] items[i]).kind == EvidenceKind::Commit {
            let i = choose|i: int| 0 <= i < items.len() && (#[trigger] items[i]).kind == EvidenceKind::Commit;
            if i < p.len() {
                assert(p[i] == items[i]);
            }
        }
    }
}

/// Law: what each guard rule asks of a thread, in terms of its nodes and
/// evidence. One approval: some approval node is not retracted (a
/// retracted approval does not count). No open objections (actions):
/// every objection (action) node is resolved, retracted or incorporated.
/// Commit evidence: some evidence item is a commit.
pub proof fn lemma_guard_rule_meaning(s: ThreadState)
    ensures
        guard_holds(GuardRule::OneApproval, s) <==> exists|i: int|
            0 <= i < s.nodes@.len() && (#[trigger] s.nodes@[i]).node_type == NodeType::Approval && !s.nodes@[i].retracted,
        guard_holds(GuardRule::NoOpenObjections, s) <==> forall|i: int|
            0 <= i < s.nodes@.len() && (#[trigger] s.nodes@[i]).node_type == NodeType::Objection ==> s.nodes@[i].resolved
                || s.nodes@[i].retracted || s.nodes@[i].incorporated,
        guard_holds(GuardRule::NoOpenActions, s) <==> forall|i: int|
            0 <= i < s.nodes@.len() && (#[trigger] s.nodes@[i]).node_type == NodeType::Action ==> s.nodes@[i].resolved
                || s.nodes@[i].retracted || s.nodes@[i].incorporated,
        guard_holds(GuardRule::HasCommitEvidence, s) <==> exists|i: int|
            0 <= i < s.evidence_items@.len() && (#[trigger] s.evidence_items@[i]).kind == EvidenceKind::Commit,
{
    lemma_approval_count_positive(s.nodes@);
    lemma_open_count_zero(s.nodes@, NodeType::Objection);
    lemma_open_count_zero(s.nodes@, NodeType::Action);
    lemma_commit_count_positive(s.evidence_items@);
}

proof fn lemma_rule_names_distinct(a: GuardRule, b: GuardRule)
    ensures
        guard_rule_name(a) == guard_rule_name(b) ==> a == b,
{
    reveal_strlit("no_open_objections");
    reveal_strlit("no_open_actions");
    reveal_strlit("one_approval");
    reveal_strlit("has_commit_evidence");
    assert("no_open_objections"@.len() == 18 && "no_open_actions"@.len() == 15);
    assert("one_approval"@.len() == 12 && "has_commit_evidence"@.len() == 19);
}

/// Law: a guard check reports a rule exactly when the transition carries
/// that rule and the thread fails it (see [`lemma_guard_rule_meaning`]);
/// the report names the rule and says why.
pub proof fn lemma_violation_reported(rules: Seq<GuardRule>, s: ThreadState, r: GuardRule)
    ensures
        violations_of(rules, s).contains((guard_rule_name(r), guard_reason(r, s))) <==> (rules.contains(r)
            && !guard_holds(r, s)),
        (exists|k: int| 0 <= k < violations_of(rules, s).len() && (#[trigger] violations_of(rules, s)[k]).0
            == guard_rule_name(r)) <==> (rules.contains(r) && !guard_holds(r, s)),
    decreases rules.len(),
{
    if rules.len() > 0 {
        let p = rules.drop_last();
        lemma_violation_reported(p, s, r);
        let rest = violations_of(p, s);
        let l = rules.last();
        lemma_rule_names_distinct(l, r);
        assert(rules == p.push(l));
        if rules.contains(r) && !guard_holds(r, s) {
            let j = choose|j: int| 0 <= j < rules.len() && rules[j] == r;
            if j < p.len() {
                assert(p[j] == r);
                assert(p.contains(r));
                let k = choose|k: int| 0 <= k < rest.len() && rest[k] == (guard_rule_name(r), guard_reason(r, s));
                if !guard_holds(l, s) {
                    assert(violations_of(rules, s)[k] == rest[k]);
                }
                assert(violations_of(rules, s)[k] == (guard_rule_name(r), guard_reason(r, s)));
            } else {
                assert(l == r);
                assert(violations_of(rules, s)[rest.len() as int] == (guard_rule_name(r), guard_reason(r, s)));
            }
        }
        if exists|k: int| 0 <= k < violations_of(rules, s).len() && (#[trigger] violations_of(rules, s)[k]).0
            == guard_rule_name(r) {
            let k = choose|k: int| 0 <= k < violations_of(rules, s).len() && (#[trigger] violations_of(rules, s)[k]).0
                == guard_rule_name(r);
            if k < rest.len() {
                if !guard_holds(l, s) {
                    assert(violations_of(rules, s)[k] == rest[k]);
                }
                assert(rest[k].0 == guard_rule_name(r));
                let j = choose|j: int| 0 <= j < p.len() && p[j] == r;
                assert(rules[j] == r);
            } else {
                assert(violations_of(rules, s)[k].0 == guard_rule_name(l));
                assert(rules[rules.len() - 1] == l);
            }
        }
        if violations_of(rules, s).contains((guard_rule_name(r), guard_reason(r, s))) {
            let k = choose|k: int| 0 <= k < violations_of(rules, s).len() && violations_of(rules, s)[k] == (guard_rule_name(r), guard_reason(r, s));
            assert(violations_of(rules, s)[k].0 == guard_rule_name(r));
        }
        if rules.contains(r) && !guard_holds(r, s) {
        } else {
            if violations_of(rules, s).contains((guard_rule_name(r), guard_reason(r, s))) {
                let k = choose|k: int| 0 <= k < violations_of(rules, s).len() && violations_of(rules, s)[k] == (guard_rule_name(r), guard_reason(r, s));
                assert(violations_of(rules, s)[k].0 == guard_rule_name(r));
            }
        }
    }
}

fn approval_count_exec(nodes: &Vec<Node>) -> (r: usize)
    ensures
        r == approval_count(nodes@),
{
    let mut n: usize = 0;
    let mut i: usize = 0;
    while i < nodes.len()
        invariant
            i <= nodes@.len(),
            n == approval_count(nodes@.take(i as int)),
            n <= i,
        decreases nodes@.len() - i,
    {
        proof {
            assert(nodes@.take(i + 1).drop_last() =~= nodes@.take(i as int));
        }
        if nodes[i].node_type == NodeType::Approval && !nodes[i].retracted {
            n = n + 1;
        }
        i += 1;
    }
    proof {
        assert(nodes@.take(i as int) =~= nodes@);
    }
    n
}

fn commit_evidence_count_exec(items: &Vec<Evidence>) -> (r: usize)
    ensures
        r == commit_evidence_count(items@),
{
    let mut n: usize = 0;
    let mut i: usize = 0;
    while i < items.len()
        invariant
            i <= items@.len(),
            n == commit_evidence_count(items@.take(i as int)),
            n <= i,
        decreases items@.len() - i,
    {
        proof {
            assert(items@.take(i + 1).drop_last() =~= items@.take(i as int));
        }
        if items[i].kind == EvidenceKind::Commit {
            n = n + 1;
        }
        i += 1;
    }
    proof {
        assert(items@.take(i as int) =~= items@);
    }
    n
}

/// Check one rule: `None` when it holds, else the violation.
fn check_rule(r: GuardRule, s: &ThreadState) -> (v: Option<GuardViolation>)
    ensures
        match v {
            None => guard_holds(r, *s),
            Some(x) => !guard_holds(r, *s) && x.rule@ == guard_rule_name(r) && x.reason@ == guard_reason(r, *s),
        },
{
    match r {
        GuardRule::NoOpenObjections => {
            let n = open_count_exec(&s.nodes, NodeType::Objection);
            if n == 0 {
                None
            } else {
                let mut t = crate::text::fmt_usize(n);
                push_str(&mut t, " open objection(s) remain");
                Some(GuardViolation { rule: string_of(chars_of(r.as_str()).as_slice()), reason: string_of(t.as_slice()) })
            }
        },
        GuardRule::NoOpenActions => {
            let n = open_count_exec(&s.nodes, NodeType::Action);
            if n == 0 {
                None
            } else {
                let mut t = crate::text::fmt_usize(n);
                push_str(&mut t, " open action(s) remain");
                Some(GuardViolation { rule: string_of(chars_of(r.as_str()).as_slice()), reason: string_of(t.as_slice()) })
            }
        },
        GuardRule::OneApproval => {
            if approval_count_exec(&s.nodes) > 0 {
                None
            } else {
                Some(GuardViolation { rule: crate::text::string_from(r.as_str()), reason: crate::text::string_from("no approval node yet") })
            }
        },
        GuardRule::HasCommitEvidence => {
            if commit_evidence_count_exec(&s.evidence_items) > 0 {
                None
            } else {
                Some(GuardViolation { rule: crate::text::string_from(r.as_str()), reason: crate::text::string_from("no commit evidence attached") })
            }
        },
    }
}

impl Policy {
    /// The policy of a category (its first entry), if it has one.
    pub fn category(&self, name: &str) -> (r: Option<&CategoryPolicy>)
        ensures
            match r {
                Some(cp) => category_policy_in(self.categories@, name@) == Some(*cp),
                None => category_policy_in(self.categories@, name@) is None,
            },
    {
        let mut i: usize = 0;
        proof {
            assert(self.categories@.skip(0) =~= self.categories@);
        }
        while i < self.categories.len()
            invariant
                i <= self.categories@.len(),
                category_policy_in(self.categories@, name@) == category_policy_in(self.categories@.skip(i as int), name@),
            decreases self.categories@.len() - i,
        {
            proof {
                assert(self.categories@.skip(i as int).drop_first() =~= self.categories@.skip(i + 1));
                assert(self.categories@.skip(i as int)[0] == self.categories@[i as int]);
            }
            if str_eq(self.categories[i].name.as_str(), name) {
                return Some(&self.categories[i].policy);
            }
            i += 1;
        }
        None
    }
}

fn guard_rules_for<'a>(gs: &'a Vec<TransitionGuard>, key: &[char]) -> (r: Option<&'a Vec<GuardRule>>)
    ensures
        match r {
            Some(rs) => guard_rules_in(gs@, key@) == Some(rs@),
            None => guard_rules_in(gs@, key@) is None,
        },
{
    let mut i: usize = 0;
    proof {
        assert(gs@.skip(0) =~= gs@);
    }
    while i < gs.len()
        invariant
            i <= gs@.len(),
            guard_rules_in(gs@, key@) == guard_rules_in(gs@.skip(i as int), key@),
        decreases gs@.len() - i,
    {
        proof {
            assert(gs@.skip(i as int).drop_first() =~= gs@.skip(i + 1));
            assert(gs@.skip(i as int)[0] == gs@[i as int]);
        }
        let t = chars_of(gs[i].transition.as_str());
        if crate::text::chars_eq(t.as_slice(), key) {
            return Some(&gs[i].rules);
        }
        i += 1;
    }
    None
}

/// The node types a category's policy allows in `status` (`None`: not
/// restricted).
pub fn allowed_node_types<'a>(cp: &'a CategoryPolicy, status: &str) -> (r: Option<&'a Vec<NodeType>>)
    ensures
        match r {
            Some(ts) => node_types_in(cp.allowed_node_types@, status@) == Some(ts@),
            None => node_types_in(cp.allowed_node_types@, status@) is None,
        },
{
    let mut i: usize = 0;
    proof {
        assert(cp.allowed_node_types@.skip(0) =~= cp.allowed_node_types@);
    }
    while i < cp.allowed_node_types.len()
        invariant
            i <= cp.allowed_node_types@.len(),
            node_types_in(cp.allowed_node_types@, status@) == node_types_in(cp.allowed_node_types@.skip(i as int), status@),
        decreases cp.allowed_node_types@.len() - i,
    {
        proof {
            assert(cp.allowed_node_types@.skip(i as int).drop_first() =~= cp.allowed_node_types@.skip(i + 1));
            assert(cp.allowed_node_types@.skip(i as int)[0] == cp.allowed_node_types@[i as int]);
        }
        if str_eq(cp.allowed_node_types[i].status.as_str(), status) {
            return Some(&cp.allowed_node_types[i].types);
        }
        i += 1;
    }
    None
}

/// The guard violations that block a thread's transition `from -> to`
/// under the policy: each rule of the transition that the thread fails,
/// in the policy's order.
pub fn check_guards(policy: &Policy, state: &ThreadState, from: &str, to: &str) -> (r: Vec<GuardViolation>)
    ensures
        violation_view(r@) == violations_of(guard_rules(*policy, *state, from@, to@), *state),
{
    let mut out: Vec<GuardViolation> = Vec::new();
    let cp = match policy.category(state.category.as_str()) {
        Some(cp) => cp,
        None => {
            proof {
                assert(violation_view(out@) =~= Seq::<(Seq<char>, Seq<char>)>::empty());
            }
            return out;
        },
    };
    let mut key = chars_of(from);
    push_str(&mut key, "->");
    push_str(&mut key, to);
    let rules = match guard_rules_for(&cp.guards, key.as_slice()) {
        Some(rs) => rs,
        None => {
            proof {
                assert(key@ =~= transition_key(from@, to@));
                assert(violation_view(out@) =~= Seq::<(Seq<char>, Seq<char>)>::empty());
            }
            return out;
        },
    };
    proof {
        assert(key@ =~= transition_key(from@, to@));
    }
    let ghost all = rules@;
    let mut i: usize = 0;
    while i < rules.len()
        invariant
            i <= all.len(),
            all == rules@,
            violation_view(out@) == violations_of(all.take(i as int), *state),
        decreases all.len() - i,
    {
        proof {
            assert(all.take(i + 1).drop_last() =~= all.take(i as int));
        }
        let ghost before = violation_view(out@);
        match check_rule(rules[i], state) {
            Some(v) => {
                out.push(v);
                proof {
                    assert(violation_view(out@) =~= before.push((v.rule@, v.reason@)));
                }
            },
            None => {},
        }
        i += 1;
    }
    proof {
        assert(all.take(i as int) =~= all);
    }
    out
}

} // verus!
