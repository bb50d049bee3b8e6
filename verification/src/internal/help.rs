//! Reference texts printed by `--help-llm`.

use vstd::prelude::*;

use crate::internal::event::{ThreadStatus, status_name, lifecycle_initial};
use crate::internal::policy::{category_definition, category_edges, category_lifecycle};
use crate::text::{chars_of, string_of, push_str, append_chars, string_from, strs, join, sorted_lex};

verus! {

/// The node type taxonomy.
pub const NODE_TYPE_TAXONOMY: &'static str = "# Node Type Taxonomy\n\nDiscussion uses four canonical node kinds, chosen by protocol effect.\n\n| Kind | Purpose | Resolvable |\n|------|---------|------------|\n| comment | Free-form prose contribution | no |\n| objection | Raise a blocking concern (must be resolved before forward transitions) | yes |\n| approval | Record approval, typically via `--approve <actor>` on a state transition | no |\n| action | A task to be completed (must be resolved before terminal states) | yes |\n\n## When to use each\n\n- **comment**: any prose contribution. Authors who want a rhetorical\n  prefix (claim, question, summary, risk, alternative, assumption)\n  express it in the body (e.g. start with `Q:`, `Decision:`, `Risk:`).\n- **objection**: blocking issues (\"Benchmarks are missing\") — gates\n  the `NoOpenObjections` policy guard until resolved or retracted.\n- **approval**: surfaces a `--approve <actor>` decision; counted by\n  the `OneHumanApproval` guard.\n- **action**: tasks to track (\"Add div-by-zero guard\") — must be\n  resolved before the thread can move to a terminal state.\n\n## Canonical form\n\n```\ngit forum node add <THREAD> --type <TYPE> \"body\"\n```\n\nAccepts positional body, `--body`, `--body-file`, `--edit`,\n`--reply-to`, and `--as`. Priority: positional > `--body` >\n`--body-file`. Pass `\"-\"` to read from stdin. `--edit` opens\n`$VISUAL` / `$EDITOR` / `vi` (requires a TTY; conflicts with body\nargs). In scripts or agent workflows, use `--body`, `--body-file`,\nor `--body -` instead.\n\n## Shorthand commands\n\n```\ngit forum comment   <THREAD> \"body\"     # node add --type comment\ngit forum objection <THREAD> \"body\"     # node add --type objection\ngit forum action    <THREAD> \"body\"     # node add --type action\n```\n\nThere is no `approval` shorthand. Approvals are recorded by passing\n`--approve <actor>` on a state-transition command (e.g.\n`git forum accept <ID> --approve human/alice`).\n\nThe 1.x rhetorical aliases (`claim`, `question`, `summary`, `risk`,\n`review`, `alternative`, `assumption`) are not 3.0 subcommands.\nThreads migrated from 1.x/2.x preserve them as a `legacy_label`\nfield on the resulting `comment` nodes.\n\n## Reading a node's full body\n\n`git forum node show <NODE_ID>` prints the full node body, kind,\nactor, timestamp, and parent thread context. Accepts full IDs or\nunique prefixes (8+ chars). Use this to read long objection or\ncomment text truncated in `git forum show`.\n\n## Storage shape\n\nEach node writes `nodes/<node_id>.toml` (kind, status, created_*,\nupdated_*, reply_to, optional legacy_label) and `nodes/<node_id>.md`\n(body) on the thread ref `refs/forum/threads/<id>`. Mutating a node\nstatus (`resolve`, `retract`, `reopen`) rewrites only the `.toml`;\nrevising body rewrites the `.md`. Revision history is `git log`\nover the ref.\n";

/// The evidence kinds reference.
pub const EVIDENCE_KINDS_REFERENCE: &'static str = "# Evidence Kinds\n\n| Kind | Description | --ref value |\n|------|-------------|-------------|\n| commit | Git commit | SHA, branch, tag, HEAD, HEAD~1 |\n| file | Source file | relative path |\n| hunk | Specific code region | path with line range |\n| test | Test file or suite | path to test file |\n| benchmark | Performance data | path to benchmark output |\n| doc | Documentation | path to doc file |\n| thread | Another forum thread | thread ID |\n| external | External URL or resource | URL or identifier |\n\n## Usage\n\n```\ngit forum evidence add <THREAD> --kind commit --ref HEAD\ngit forum evidence add <THREAD> --kind commit --ref abc123 --ref def456\ngit forum evidence add <THREAD> --kind file --ref src/lib.rs\ngit forum evidence add <THREAD> --kind test --ref tests/backend_test.rs\ngit forum evidence add <THREAD> --kind benchmark --ref bench/result.csv\n```\n\n`--ref` accepts multiple values; each writes its own row to\n`evidence.toml` on the thread ref. For `--kind commit`, the\nrevision is resolved through `git rev-parse` to a canonical 40-char\nOID before storing — `--ref HEAD` becomes the resolved SHA.\n\n## Storage shape\n\nEach `evidence add` rewrites `evidence.toml` (one row per `--ref`)\nand creates one commit on `refs/forum/threads/<id>`. Policy guards\nthat check evidence (e.g. `HasCommitEvidence`) read the rows\ndirectly from `evidence.toml`; there is no separate event log.\n";

/// The opening of the state transition map.
pub const TRANSITION_MAP_HEAD: &'static str = "# State Transition Map\n\nEach thread carries a `category` (`rfc` or `task`)\nthat defines the legal status set and the legal transitions. The\nstatus names are unified across categories; per-category\nrestrictions appear in the tables below.\n\n";

/// The closing sections of the state transition map.
pub const TRANSITION_MAP_TAIL: &'static str = "## Canonical form\n\n```\ngit forum state <ID> <STATUS>     # single grammar for all transitions\ngit forum state bulk --to <STATUS> <ID>...\ngit forum reopen <ID>             # closed → open (no NODE_ID args)\n```\n\nStatus names are canonical: `draft`, `open`, `working`,\n`review`, `done`, `rejected`, `withdrawn`, `deprecated`. Reachability\nis keyed on the thread's `category`, not the legacy 1.x `kind`.\n\nAll transitions accept `--as`, `--comment`, and `--fast-track`.\n`state` (and shorthands like `accept` / `close`) also accept\n`--approve`, `--link-to`, `--rel`, and `--resolve-open-actions`.\n`--fast-track` walks intermediate states, checking guards at each step.\n\n## Shorthand commands (category-aware)\n\n```\ngit forum close    <ID>   # task: -> done; rfc: rejected (use accept)\ngit forum accept   <ID>   # rfc: -> done; task: rejected (use close)\ngit forum propose  <ID>   # rfc: draft -> open; task: rejected\ngit forum pend     <ID>   # task: -> working; rfc: rejected\ngit forum reject   <ID>   # any category: -> rejected\ngit forum withdraw <ID>   # rfc: -> withdrawn; task: rejected\ngit forum deprecate <ID>  # any category: -> deprecated\n```\n\n## Discoverability\n\n`git forum show <ID>` prints a compact `next:` line and state diagram.\n`git forum show <ID> --what-next` shows guard checks and operation-check rules.\n`git forum verify <ID>` reports which guards block the next forward target.\n`git forum policy show` displays the loaded policy.\n`git forum status <ID>` reports unresolved items (objections, actions, evidence gaps).\n\n## Category-scoped guard keys\n\nGuards target a category + status transition. The scope grammar is\n`category=<NAME>;status=FROM->TO`:\n\n```toml\n[[guards]]\nscope = \"category=rfc;status=review->done\"\nrules = [\"OneHumanApproval\", \"NoOpenObjections\"]\n\n[[guards]]\nscope = \"category=task;status=working->done\"\nrules = [\"NoOpenActions\", \"NoOpenObjections\"]\n```\n\nTag-scoped variants (`tag=<NAME>;status=FROM->TO`) apply only to threads\ncarrying the named tag. When multiple guard tables match a transition,\ntheir rule lists are unioned.\n\n## Storage shape\n\nA state transition rewrites `thread.toml`'s `status`, `updated_at`,\nand `updated_by` fields and creates one new commit on\n`refs/forum/threads/<id>`. There is no separate event log;\n`git log` over the ref is the audit trail.\n";

/// Node type taxonomy for `--help-llm`.
pub fn node_type_taxonomy() -> (r: String)
    ensures
        r@ == NODE_TYPE_TAXONOMY@,
{
    string_from(NODE_TYPE_TAXONOMY)
}

/// Evidence kinds reference for `--help-llm`.
pub fn evidence_kinds_reference() -> (r: String)
    ensures
        r@ == EVIDENCE_KINDS_REFERENCE@,
{
    string_from(EVIDENCE_KINDS_REFERENCE)
}


/// Index of the first `->` in `t` at or after `i`.
pub open spec fn first_arrow(t: Seq<char>, i: nat) -> Option<nat>
    decreases t.len() - i,
{
    if i + 2 > t.len() {
        None
    } else if t[i as int] == '-' && t[i + 1 as int] == '>' {
        Some(i)
    } else {
        first_arrow(t, i + 1)
    }
}

/// The table row of a `from->to` string: `| from | to |`; a string
/// without `->` gives no row.
pub open spec fn transition_row(t: Seq<char>) -> Seq<char> {
    match first_arrow(t, 0) {
        Some(k) => "| "@ + t.take(k as int) + " | "@ + t.skip(k + 2 as int) + " |\n"@,
        None => Seq::<char>::empty(),
    }
}

/// The rows of a sequence of transition strings, concatenated.
pub open spec fn transition_rows(ts: Seq<Seq<char>>) -> Seq<char>
    decreases ts.len(),
{
    if ts.len() == 0 {
        Seq::<char>::empty()
    } else {
        transition_rows(ts.drop_last()) + transition_row(ts.last())
    }
}

/// `from->to` for each transition.
pub open spec fn transition_strings(es: Seq<(ThreadStatus, ThreadStatus)>) -> Seq<Seq<char>> {
    Seq::new(es.len(), |i: int| status_name(es[i].0) + "->"@ + status_name(es[i].1))
}

/// The section of one category, given its transitions in table order.
pub open spec fn category_section(name: Seq<char>, initial: ThreadStatus, rows: Seq<Seq<char>>) -> Seq<char> {
    "## `category = \""@ + name + "\"`\n\n"@ + "Initial status: `"@ + status_name(initial) + "`\n\n"@
        + "| From | To |\n|------|----|\n"@ + transition_rows(rows) + "\n"@
}

/// The state transition map, given each category's transitions as sorted
/// in its table.
pub open spec fn transition_map_text(rfc_rows: Seq<Seq<char>>, task_rows: Seq<Seq<char>>) -> Seq<char> {
    TRANSITION_MAP_HEAD@ + category_section("rfc"@, lifecycle_initial(category_lifecycle("rfc"@)->0), rfc_rows)
        + category_section("task"@, lifecycle_initial(category_lifecycle("task"@)->0), task_rows)
        + TRANSITION_MAP_TAIL@
}

/// The rows of a category table: its transitions as `from->to`, in
/// ascending order.
pub open spec fn table_rows_of(name: Seq<char>, rows: Seq<Seq<char>>) -> bool {
    &&& category_lifecycle(name) is Some
    &&& sorted_lex(rows)
    &&& rows.to_multiset() == transition_strings(category_edges(category_lifecycle(name)->0)).to_multiset()
}

fn first_arrow_exec(t: &[char]) -> (r: Option<usize>)
    ensures
        match r {
            Some(k) => first_arrow(t@, 0) == Some(k as nat) && k + 2 <= t.len(),
            None => first_arrow(t@, 0) is None,
        },
{
    let mut i: usize = 0;
    while i < t.len() && t.len() - i >= 2
        invariant
            first_arrow(t@, i as nat) == first_arrow(t@, 0),
            i <= t@.len(),
        decreases t@.len() - i,
    {
        if t[i] == '-' && t[i + 1] == '>' {
            return Some(i);
        }
        i += 1;
    }
    None
}

fn push_row(out: &mut Vec<char>, t: &String)
    ensures
        final(out)@ == old(out)@ + transition_row(t@),
{
    let cs = chars_of(t.as_str());
    match first_arrow_exec(cs.as_slice()) {
        Some(k) => {
            let from = crate::text::slice_range(cs.as_slice(), 0, k);
            let to = crate::text::slice_range(cs.as_slice(), k + 2, cs.len());
            let ghost start = out@;
            push_str(out, "| ");
            append_chars(out, from.as_slice());
            push_str(out, " | ");
            append_chars(out, to.as_slice());
            push_str(out, " |\n");
            proof {
                assert(to@ =~= cs@.skip(k + 2));
                assert(out@ =~= start + transition_row(t@));
            }
        },
        None => {
            proof {
                assert(out@ =~= out@ + transition_row(t@));
            }
        },
    }
}

fn push_category_section(out: &mut Vec<char>, name: &str) -> (rows: Ghost<Seq<Seq<char>>>)
    requires
        category_lifecycle(name@) is Some,
    ensures
        table_rows_of(name@, rows@),
        final(out)@ == old(out)@ + category_section(name@, lifecycle_initial(category_lifecycle(name@)->0), rows@),
{
    let def = match category_definition(name) {
        Some(d) => d,
        None => {
            proof {
                assert(false);
            }
            return Ghost(Seq::empty());
        },
    };
    let mut strings: Vec<String> = Vec::new();
    let mut i: usize = 0;
    while i < def.transitions.len()
        invariant
            i <= def.transitions@.len(),
            strings@.len() == i,
            forall|j: int| 0 <= j < i ==> #[trigger] strings@[j]@ == transition_strings(def.transitions@)[j],
        decreases def.transitions@.len() - i,
    {
        let (a, b) = def.transitions[i];
        let mut v = chars_of(a.as_str());
        push_str(&mut v, "->");
        push_str(&mut v, b.as_str());
        strings.push(string_of(v.as_slice()));
        i += 1;
    }
    proof {
        assert(strs(strings@) =~= transition_strings(def.transitions@));
    }
    crate::text::sort_strings(&mut strings);
    let ghost start = out@;
    push_str(out, "## `category = \"");
    push_str(out, name);
    push_str(out, "\"`\n\n");
    push_str(out, "Initial status: `");
    push_str(out, def.initial_status.as_str());
    push_str(out, "`\n\n");
    push_str(out, "| From | To |\n|------|----|\n");
    let ghost before_rows = out@;
    let mut k: usize = 0;
    while k < strings.len()
        invariant
            k <= strings@.len(),
            out@ == before_rows + transition_rows(strs(strings@).take(k as int)),
        decreases strings@.len() - k,
    {
        push_row(out, &strings[k]);
        proof {
            assert(strs(strings@).take(k + 1).drop_last() =~= strs(strings@).take(k as int));
        }
        k += 1;
    }
    push_str(out, "\n");
    let ghost rows = strs(strings@);
    proof {
        assert(strs(strings@).take(k as int) =~= rows);
        assert(out@ =~= start + category_section(name@, def.initial_status, rows));
    }
    Ghost(rows)
}

/// State transition map for `--help-llm`: each category's initial status
/// and its transitions, sorted, then the command reference.
pub fn state_transition_map() -> (r: String)
    ensures
        exists|rfc_rows: Seq<Seq<char>>, task_rows: Seq<Seq<char>>|
            table_rows_of("rfc"@, rfc_rows) && table_rows_of("task"@, task_rows)
                && r@ == transition_map_text(rfc_rows, task_rows),
{
    proof {
        reveal_strlit("rfc");
        reveal_strlit("task");
    }
    let mut out = chars_of(TRANSITION_MAP_HEAD);
    let rfc_rows = push_category_section(&mut out, "rfc");
    let task_rows = push_category_section(&mut out, "task");
    push_str(&mut out, TRANSITION_MAP_TAIL);
    proof {
        assert(out@ =~= transition_map_text(rfc_rows@, task_rows@));
    }
    string_of(out.as_slice())
}

} // verus!
