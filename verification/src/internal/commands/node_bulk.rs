//! `git forum retract|resolve|reopen` over several nodes: the change made
//! to the thread's nodes, and the lines it reports.

use vstd::prelude::*;

use crate::internal::commands::verify::{cut_ok, short_node_id};
use crate::internal::git_ops::{lowercase_text, str_to_lowercase};
use crate::internal::node::Node;
use crate::text::{append_chars, chars_of, decimal, prefix_within_exec, push_str, push_usize, slice_range, str_eq, string_of, strs};

verus! {

/// The node lifecycle operation applied to every named node.
#[derive(Debug, Clone, Copy, PartialEq, Eq, Structural)]
pub enum NodeLifecycleOp {
    Retract,
    Resolve,
    Reopen,
}

#[derive(Debug, Clone)]
pub struct NodeBulkArgs {
    pub args: Vec<String>,
    pub as_actor: Option<String>,
    pub op: NodeLifecycleOp,
    pub label: String,
}

/// A node after an operation: retracted, resolved, or (reopen) open
/// again; a node has one status, so the other flags are cleared.
pub open spec fn node_after(n: Node, op: NodeLifecycleOp) -> Node {
    Node {
        retracted: op == NodeLifecycleOp::Retract,
        resolved: op == NodeLifecycleOp::Resolve,
        incorporated: false,
        ..n
    }
}

/// The index of the first node with ID `id`.
pub open spec fn first_with_id(nodes: Seq<Node>, id: Seq<char>) -> Option<int>
    decreases nodes.len(),
{
    if nodes.len() == 0 {
        None
    } else if nodes[0].node_id@ == id {
        Some(0)
    } else {
        match first_with_id(nodes.drop_first(), id) {
            Some(k) => Some(k + 1),
            None => None,
        }
    }
}

proof fn lemma_first_with_id(nodes: Seq<Node>, id: Seq<char>)
    ensures
        first_with_id(nodes, id) matches Some(k) ==> 0 <= k < nodes.len() && nodes[k].node_id@ == id && forall|j: int|
            0 <= j < k ==> (#[trigger] nodes[j]).node_id@ != id,
        first_with_id(nodes, id) is None ==> forall|j: int| 0 <= j < nodes.len() ==> (#[trigger] nodes[j]).node_id@ != id,
    decreases nodes.len(),
{
    if nodes.len() > 0 {
        let rest = nodes.drop_first();
        lemma_first_with_id(rest, id);
        assert forall|j: int| 0 < j < nodes.len() implies (#[trigger] nodes[j]) == rest[j - 1] by {}
    }
}

/// Node `i` is the first node with the ID of some target.
pub open spec fn is_targeted(nodes: Seq<Node>, targets: Seq<Seq<char>>, i: int) -> bool {
    exists|k: int| 0 <= k < targets.len() && first_with_id(nodes, #[trigger] targets[k]) == Some(i)
}

/// The nodes after the operation: each node that is the first with a
/// target's ID changes (see [`node_after`]); the others stay.
pub open spec fn nodes_after(nodes: Seq<Node>, targets: Seq<Seq<char>>, op: NodeLifecycleOp) -> Seq<Node> {
    Seq::new(nodes.len(), |i: int| if is_targeted(nodes, targets, i) { node_after(nodes[i], op) } else { nodes[i] })
}

/// The targets that name a node, in order.
pub open spec fn found_targets(nodes: Seq<Node>, targets: Seq<Seq<char>>) -> Seq<Seq<char>>
    decreases targets.len(),
{
    if targets.len() == 0 {
        seq![]
    } else {
        let r = found_targets(nodes, targets.drop_last());
        if first_with_id(nodes, targets.last()) is Some {
            r.push(targets.last())
        } else {
            r
        }
    }
}

/// The targets that name no node, in order.
pub open spec fn missing_targets(nodes: Seq<Node>, targets: Seq<Seq<char>>) -> Seq<Seq<char>>
    decreases targets.len(),
{
    if targets.len() == 0 {
        seq![]
    } else {
        let r = missing_targets(nodes, targets.drop_last());
        if first_with_id(nodes, targets.last()) is None {
            r.push(targets.last())
        } else {
            r
        }
    }
}

/// What an operation did: the targets applied and those not found.
pub struct NodeLifecycleOutcome {
    pub applied: Vec<String>,
    pub missing: Vec<String>,
}

fn first_with_id_exec(nodes: &Vec<Node>, id: &str) -> (r: Option<usize>)
    ensures
        match r {
            Some(k) => first_with_id(nodes@, id@) == Some(k as int) && k < nodes@.len(),
            None => first_with_id(nodes@, id@) is None,
        },
{
    let mut j: usize = 0;
    while j < nodes.len()
        invariant
            j <= nodes@.len(),
            forall|k: int| 0 <= k < j ==> (#[trigger] nodes@[k]).node_id@ != id@,
        decreases nodes@.len() - j,
    {
        if str_eq(nodes[j].node_id.as_str(), id) {
            proof {
                lemma_first_with_id(nodes@, id@);
                match first_with_id(nodes@, id@) {
                    Some(k) => {
                        if k < j {
                            assert(nodes@[k].node_id@ != id@);
                        }
                        if k > j {
                            assert(nodes@[j as int].node_id@ != id@);
                        }
                    },
                    None => {
                        assert(nodes@[j as int].node_id@ != id@);
                    },
                }
            }
            return Some(j);
        }
        j += 1;
    }
    proof {
        lemma_first_with_id(nodes@, id@);
        if let Some(k) = first_with_id(nodes@, id@) {
            assert(nodes@[k].node_id@ == id@);
        }
    }
    None
}

/// Apply an operation to the nodes named by `targets` (the resolved node
/// IDs, in the order given): the first node with each ID takes the
/// operation's status (see [`nodes_after`]); the outcome lists the
/// targets applied and those no node has.
pub fn apply_node_lifecycle(nodes: &mut Vec<Node>, targets: &Vec<String>, op: NodeLifecycleOp) -> (r: NodeLifecycleOutcome)
    ensures
        final(nodes)@ == nodes_after(old(nodes)@, strs(targets@), op),
        strs(r.applied@) == found_targets(old(nodes)@, strs(targets@)),
        strs(r.missing@) == missing_targets(old(nodes)@, strs(targets@)),
{
    let ghost orig = nodes@;
    let ghost ts = strs(targets@);
    let mut applied: Vec<String> = Vec::new();
    let mut missing: Vec<String> = Vec::new();
    let mut i: usize = 0;
    proof {
        assert(nodes@ =~= nodes_after(orig, ts.take(0), op));
    }
    while i < targets.len()
        invariant
            i <= targets@.len(),
            ts == strs(targets@),
            nodes@ == nodes_after(orig, ts.take(i as int), op),
            strs(applied@) == found_targets(orig, ts.take(i as int)),
            strs(missing@) == missing_targets(orig, ts.take(i as int)),
        decreases targets@.len() - i,
    {
        let t = targets[i].as_str();
        proof {
            assert(ts.take(i + 1).drop_last() =~= ts.take(i as int));
            assert(ts.take(i + 1).last() == t@);
        }
        let ghost before = nodes@;
        let found = first_with_id_exec(nodes, t);
        proof {
            // IDs are not changed by the operation, so the first node with an
            // ID is the same before and after.
            assert forall|j: int| 0 <= j < nodes@.len() implies (#[trigger] nodes@[j]).node_id@ == orig[j].node_id@ by {}
            assert(nodes@.len() == orig.len());
            lemma_same_ids(nodes@, orig, t@);
        }
        match found {
            Some(k) => {
                let n = nodes.remove(k);
                let updated = Node {
                    retracted: op == NodeLifecycleOp::Retract,
                    resolved: op == NodeLifecycleOp::Resolve,
                    incorporated: false,
                    ..n
                };
                nodes.insert(k, updated);
                proof {
                    assert(nodes@ =~= before.update(k as int, node_after(before[k as int], op)));
                }
                proof {
                    assert(nodes@ =~= nodes_after(orig, ts.take(i + 1), op)) by {
                        assert forall|j: int| 0 <= j < orig.len() implies nodes@[j] == nodes_after(orig, ts.take(i + 1), op)[j] by {
                            if j == k {
                                assert(ts.take(i + 1)[i as int] == t@);
                                assert(is_targeted(orig, ts.take(i + 1), j));
                                if is_targeted(orig, ts.take(i as int), j) {
                                    let q = choose|q: int| 0 <= q < ts.take(i as int).len() && first_with_id(orig, #[trigger] ts.take(i as int)[q]) == Some(j);
                                    assert(ts.take(i + 1)[q] == ts.take(i as int)[q]);
                                }
                            } else {
                                if is_targeted(orig, ts.take(i + 1), j) {
                                    let q = choose|q: int| 0 <= q < ts.take(i + 1).len() && first_with_id(orig, #[trigger] ts.take(i + 1)[q]) == Some(j);
                                    if q < i {
                                        assert(ts.take(i as int)[q] == ts.take(i + 1)[q]);
                                    }
                                }
                                if is_targeted(orig, ts.take(i as int), j) {
                                    let q = choose|q: int| 0 <= q < ts.take(i as int).len() && first_with_id(orig, #[trigger] ts.take(i as int)[q]) == Some(j);
                                    assert(ts.take(i + 1)[q] == ts.take(i as int)[q]);
                                }
                            }
                        }
                    }
                }
                let ghost ab = strs(applied@);
                applied.push(crate::text::string_from(t));
                proof {
                    assert(strs(applied@) =~= ab.push(t@));
                }
            },
            None => {
                proof {
                    assert(nodes@ =~= nodes_after(orig, ts.take(i + 1), op)) by {
                        assert forall|j: int| 0 <= j < orig.len() implies nodes@[j] == nodes_after(orig, ts.take(i + 1), op)[j] by {
                            if is_targeted(orig, ts.take(i + 1), j) {
                                let q = choose|q: int| 0 <= q < ts.take(i + 1).len() && first_with_id(orig, #[trigger] ts.take(i + 1)[q]) == Some(j);
                                if q < i {
                                    assert(ts.take(i as int)[q] == ts.take(i + 1)[q]);
                                }
                            }
                            if is_targeted(orig, ts.take(i as int), j) {
                                let q = choose|q: int| 0 <= q < ts.take(i as int).len() && first_with_id(orig, #[trigger] ts.take(i as int)[q]) == Some(j);
                                assert(ts.take(i + 1)[q] == ts.take(i as int)[q]);
                            }
                        }
                    }
                }
                let ghost mb = strs(missing@);
                missing.push(crate::text::string_from(t));
                proof {
                    assert(strs(missing@) =~= mb.push(t@));
                }
            },
        }
        i += 1;
    }
    proof {
        assert(ts.take(i as int) =~= ts);
    }
    NodeLifecycleOutcome { applied, missing }
}

proof fn lemma_same_ids(a: Seq<Node>, b: Seq<Node>, id: Seq<char>)
    requires
        a.len() == b.len(),
        forall|j: int| 0 <= j < a.len() ==> (#[trigger] a[j]).node_id@ == b[j].node_id@,
    ensures
        first_with_id(a, id) == first_with_id(b, id),
    decreases a.len(),
{
    if a.len() > 0 {
        assert forall|j: int| 0 <= j < a.drop_first().len() implies (#[trigger] a.drop_first()[j]).node_id@ == b.drop_first()[j].node_id@ by {
            assert(a.drop_first()[j] == a[j + 1]);
            assert(b.drop_first()[j] == b[j + 1]);
        }
        lemma_same_ids(a.drop_first(), b.drop_first(), id);
        assert(a[0].node_id@ == b[0].node_id@);
    }
}

/// Applying an operation a second time to the same targets changes
/// nothing more.
pub proof fn lemma_lifecycle_idempotent(nodes: Seq<Node>, targets: Seq<Seq<char>>, op: NodeLifecycleOp)
    ensures
        nodes_after(nodes_after(nodes, targets, op), targets, op) == nodes_after(nodes, targets, op),
{
    let once = nodes_after(nodes, targets, op);
    assert forall|j: int| 0 <= j < once.len() implies (#[trigger] once[j]).node_id@ == nodes[j].node_id@ by {}
    assert forall|t: Seq<char>| first_with_id(once, t) == first_with_id(nodes, t) by {
        lemma_same_ids(once, nodes, t);
    }
    assert forall|i: int| 0 <= i < once.len() implies is_targeted(once, targets, i) == is_targeted(nodes, targets, i) by {
        if is_targeted(once, targets, i) {
            let q = choose|q: int| 0 <= q < targets.len() && first_with_id(once, #[trigger] targets[q]) == Some(i);
            assert(first_with_id(nodes, targets[q]) == Some(i));
        }
        if is_targeted(nodes, targets, i) {
            let q = choose|q: int| 0 <= q < targets.len() && first_with_id(nodes, #[trigger] targets[q]) == Some(i);
            assert(first_with_id(once, targets[q]) == Some(i));
        }
    }
    assert(nodes_after(once, targets, op) =~= once);
}

/// Every target is either applied or reported missing.
pub proof fn lemma_targets_partition(nodes: Seq<Node>, targets: Seq<Seq<char>>)
    ensures
        found_targets(nodes, targets).len() + missing_targets(nodes, targets).len() == targets.len(),
    decreases targets.len(),
{
    if targets.len() > 0 {
        lemma_targets_partition(nodes, targets.drop_last());
    }
}

/// The commit message of a lifecycle change: the label lowercased and how
/// many nodes changed.
pub fn lifecycle_commit_message(label: &str, applied: usize) -> (r: String)
    ensures
        r@ == "node lifecycle: "@ + lowercase_text(label@) + " ("@ + decimal(applied as nat) + ")"@,
{
    let mut v = chars_of("node lifecycle: ");
    let lower = str_to_lowercase(label);
    push_str(&mut v, lower.as_str());
    push_str(&mut v, " (");
    push_usize(&mut v, applied);
    push_str(&mut v, ")");
    string_of(v.as_slice())
}

/// The line printed for an applied node: the label and the node's ID cut
/// at 16 bytes (which must fall on a character boundary).
pub fn applied_line(label: &str, node_id: &str) -> (r: String)
    requires
        cut_ok(node_id@),
    ensures
        r@ == label@ + " "@ + short_node_id(node_id@),
{
    let mut v = chars_of(label);
    push_str(&mut v, " ");
    let cs = chars_of(node_id);
    let k = prefix_within_exec(cs.as_slice(), 16);
    let short = slice_range(cs.as_slice(), 0, k);
    proof {
        assert(short@ =~= short_node_id(node_id@));
    }
    append_chars(&mut v, short.as_slice());
    string_of(v.as_slice())
}

} // verus!
