//! The `show` command's renderers: the category state diagram, the
//! `--tree` advisory, and the text-shortening helpers.

use vstd::prelude::*;

use crate::internal::event::{ThreadStatus, status_name, lifecycle_name, Lifecycle, NodeType};
use crate::internal::policy::{
    category_definition, category_edges, category_lifecycle, lifecycle_label_for, lifecycle_for_category,
};
use crate::internal::thread::ThreadState;
use crate::internal::node::{Node, node_type_name};
use crate::internal::event::str_views;
use crate::internal::commands::brief::{open_count, open_count_exec};
use crate::internal::commands::verify::{cut_ok, is_open_node, next_targets, next_targets_exec, short_node_id};
use crate::internal::policy::{
    allowed_node_types, category_policy_in, check_guards, guard_rules, node_types_in, violation_view, violations_of,
    Policy,
};
use crate::internal::commands::brief::{latest_summary, latest_summary_exec};
use crate::internal::commands::verify::{build_lookahead, lookahead_spec, lookahead_view, LookaheadEntry};
use crate::text::{str_eq, trim, trim_chars, utf8_len};
use crate::internal::actor::opt_view;
use crate::internal::evidence::{evidence_kind_name, Evidence};
use crate::internal::thread::{NodeLookup, ThreadLink};
use crate::text::prefix_within;
use vstd::utf8::encode_utf8;
use crate::internal::evidence::{format_timestamp, timestamp_text, Timestamp};
use crate::text::{decimal, fmt_usize, pad_right, pad_right_exec, prefix_within_exec, push_usize, slice_range};
use crate::text::{
    chars_of, string_of, push_str, append_chars, views, strs, join, join_chars, join_to_string, lines,
    lines_of, repeat, repeat_exec, chars_eq_str, to_strings, take_chars,
};
use vstd::utf8::is_char_boundary;
use vstd::string::StringSliceAdditionalSpecFns;

verus! {

// ---------------------------------------------------------------------------
// Text shortening
// ---------------------------------------------------------------------------

/// `s` when it has at most `max` characters, else its first `max`
/// characters followed by `...`.
pub open spec fn truncated(s: Seq<char>, max: nat) -> Seq<char> {
    if s.len() <= max {
        s
    } else {
        s.take(max as int) + "..."@
    }
}

/// Shorten `s` to at most `max` characters plus an ellipsis.
pub fn truncate_body(s: &str, max: usize) -> (r: String)
    ensures
        r@ == truncated(s@, max as nat),
{
    let cs = chars_of(s);
    if cs.len() <= max {
        string_of(cs.as_slice())
    } else {
        let mut v = take_chars(cs.as_slice(), max);
        push_str(&mut v, "...");
        string_of(v.as_slice())
    }
}

/// The lines of `s` joined with ` / `, shortened to `max` characters.
pub open spec fn preview(s: Seq<char>, max: nat) -> Seq<char> {
    truncated(join(lines(s), " / "@), max)
}

/// A one-line preview of a multi-line text.
pub fn single_line_preview(s: &str, max: usize) -> (r: String)
    ensures
        r@ == preview(s@, max as nat),
{
    let cs = chars_of(s);
    let ls = lines_of(cs.as_slice());
    let joined = join_to_string(&ls, " / ");
    truncate_body(joined.as_str(), max)
}

/// The first 16 bytes of an object ID (all of it when shorter). The cut
/// must fall on a character boundary.
pub fn short_oid(id: &str) -> (r: &str)
    requires
        id.spec_bytes().len() <= usize::MAX,
        id.spec_bytes().len() <= 16 || is_char_boundary(id.spec_bytes(), 16),
    ensures
        r.spec_bytes() == id.spec_bytes().take(if id.spec_bytes().len() <= 16 { id.spec_bytes().len() as int } else { 16 }),
{
    if id.len() <= 16 {
        proof {
            assert(id.spec_bytes().take(id.spec_bytes().len() as int) =~= id.spec_bytes());
        }
        id
    } else {
        let (head, _) = id.split_at(16);
        proof {
            assert(head.spec_bytes() =~= id.spec_bytes().take(16));
        }
        head
    }
}

// ---------------------------------------------------------------------------
// State diagram
// ---------------------------------------------------------------------------

/// The main path drawn on the first line of a category's diagram.
pub open spec fn spine(category: Seq<char>) -> Seq<ThreadStatus> {
    if category == "rfc"@ {
        seq![ThreadStatus::Draft, ThreadStatus::Open, ThreadStatus::Review, ThreadStatus::Done, ThreadStatus::Deprecated]
    } else if category == "task"@ {
        seq![ThreadStatus::Open, ThreadStatus::Working, ThreadStatus::Review, ThreadStatus::Done, ThreadStatus::Deprecated]
    } else {
        seq![]
    }
}

/// A state's name, in brackets when it is the current state.
pub open spec fn fmt_state(s: ThreadStatus, current: Seq<char>) -> Seq<char> {
    if status_name(s) == current {
        "["@ + status_name(s) + "]"@
    } else {
        status_name(s)
    }
}

/// `a -> b` is a step along the spine.
pub open spec fn is_spine_edge(sp: Seq<ThreadStatus>, a: ThreadStatus, b: ThreadStatus) -> bool {
    exists|i: int| 0 <= i < sp.len() - 1 && #[trigger] sp[i] == a && sp[i + 1] == b
}

/// The targets of the off-spine edges leaving `src`, among the first `n`
/// edges, in edge order.
pub open spec fn branch_targets(edges: Seq<(ThreadStatus, ThreadStatus)>, sp: Seq<ThreadStatus>, src: ThreadStatus, n: nat) -> Seq<ThreadStatus>
    decreases n,
{
    if n == 0 {
        seq![]
    } else {
        let rest = branch_targets(edges, sp, src, (n - 1) as nat);
        let e = edges[n - 1];
        if e.0 == src && !is_spine_edge(sp, e.0, e.1) {
            rest.push(e.1)
        } else {
            rest
        }
    }
}

/// Width of the spine text before position `k`, plus the two-space
/// margin: each earlier state's shown name and ` → `.
pub open spec fn spine_offset(sp: Seq<ThreadStatus>, current: Seq<char>, k: nat) -> nat
    decreases k,
{
    if k == 0 || k > sp.len() {
        2
    } else {
        spine_offset(sp, current, (k - 1) as nat) + fmt_state(sp[k - 1], current).len() + 3
    }
}

/// The lines drawing the branches of `targets` under a spine state.
pub open spec fn branch_lines(targets: Seq<ThreadStatus>, indent: nat, current: Seq<char>) -> Seq<Seq<char>> {
    Seq::new(
        targets.len(),
        |i: int|
            repeat(' ', indent) + (if i + 1 < targets.len() { "├→"@ } else { "└→"@ }) + " "@
                + fmt_state(targets[i], current),
    )
}

/// The branch lines of the spine states from position `k` on.
pub open spec fn spine_branches(edges: Seq<(ThreadStatus, ThreadStatus)>, sp: Seq<ThreadStatus>, current: Seq<char>, k: nat) -> Seq<Seq<char>>
    decreases k,
{
    if k == 0 || k > sp.len() {
        seq![]
    } else {
        spine_branches(edges, sp, current, (k - 1) as nat) + branch_lines(
            branch_targets(edges, sp, sp[k - 1], edges.len()),
            spine_offset(sp, current, (k - 1) as nat),
            current,
        )
    }
}

/// The lines for the edges, among the first `n`, whose source is off the
/// spine.
pub open spec fn off_spine_lines(edges: Seq<(ThreadStatus, ThreadStatus)>, sp: Seq<ThreadStatus>, current: Seq<char>, n: nat) -> Seq<Seq<char>>
    decreases n,
{
    if n == 0 {
        seq![]
    } else {
        let rest = off_spine_lines(edges, sp, current, (n - 1) as nat);
        let e = edges[n - 1];
        if sp.contains(e.0) {
            rest
        } else {
            rest.push("  "@ + fmt_state(e.0, current) + " → "@ + fmt_state(e.1, current))
        }
    }
}

/// The state diagram of a category with `current` highlighted: the spine,
/// then each spine state's off-spine branches, then the edges whose source
/// is off the spine. An unknown category gives one explanatory line.
pub open spec fn state_diagram(category: Seq<char>, current: Seq<char>) -> Seq<Seq<char>> {
    match category_lifecycle(category) {
        Some(l) => {
            let sp = spine(category);
            let edges = category_edges(l);
            seq!["  "@ + join(Seq::new(sp.len(), |i: int| fmt_state(sp[i], current)), " → "@)]
                + spine_branches(edges, sp, current, sp.len()) + off_spine_lines(edges, sp, current, edges.len())
        },
        None => seq!["  (unknown category `"@ + category + "`)"@],
    }
}

fn spine_exec(category: &str) -> (r: Vec<ThreadStatus>)
    ensures
        r@ == spine(category@),
{
    if crate::text::str_eq(category, "rfc") {
        let v = vec![ThreadStatus::Draft, ThreadStatus::Open, ThreadStatus::Review, ThreadStatus::Done, ThreadStatus::Deprecated];
        proof {
            assert(v@ =~= spine(category@));
        }
        v
    } else if crate::text::str_eq(category, "task") {
        let v = vec![ThreadStatus::Open, ThreadStatus::Working, ThreadStatus::Review, ThreadStatus::Done, ThreadStatus::Deprecated];
        proof {
            assert(v@ =~= spine(category@));
        }
        v
    } else {
        let v: Vec<ThreadStatus> = Vec::new();
        proof {
            assert(v@ =~= spine(category@));
        }
        v
    }
}

fn fmt_state_exec(s: ThreadStatus, current: &str) -> (r: Vec<char>)
    ensures
        r@ == fmt_state(s, current@),
{
    let name = chars_of(s.as_str());
    if chars_eq_str(name.as_slice(), current) {
        let mut v = chars_of("[");
        append_chars(&mut v, name.as_slice());
        push_str(&mut v, "]");
        v
    } else {
        name
    }
}

fn is_spine_edge_exec(sp: &Vec<ThreadStatus>, a: ThreadStatus, b: ThreadStatus) -> (r: bool)
    ensures
        r == is_spine_edge(sp@, a, b),
{
    let mut i: usize = 1;
    while i < sp.len()
        invariant
            1 <= i,
            forall|j: int| 0 <= j < i - 1 && j < sp@.len() - 1 ==> !(#[trigger] sp@[j] == a && sp@[j + 1] == b),
        decreases sp@.len() - i,
    {
        if sp[i - 1] == a && sp[i] == b {
            proof {
                assert(sp@[i - 1] == a && sp@[(i - 1) + 1] == b);
            }
            return true;
        }
        i += 1;
    }
    false
}

fn spine_contains(sp: &Vec<ThreadStatus>, s: ThreadStatus) -> (r: bool)
    ensures
        r == sp@.contains(s),
{
    let mut i: usize = 0;
    while i < sp.len()
        invariant
            i <= sp@.len(),
            forall|j: int| 0 <= j < i ==> sp@[j] != s,
        decreases sp@.len() - i,
    {
        if sp[i] == s {
            proof {
                assert(sp@[i as int] == s);
            }
            return true;
        }
        i += 1;
    }
    false
}

fn branch_targets_exec(edges: &Vec<(ThreadStatus, ThreadStatus)>, sp: &Vec<ThreadStatus>, src: ThreadStatus) -> (r: Vec<ThreadStatus>)
    ensures
        r@ == branch_targets(edges@, sp@, src, edges@.len()),
{
    let mut out: Vec<ThreadStatus> = Vec::new();
    let mut i: usize = 0;
    while i < edges.len()
        invariant
            i <= edges@.len(),
            out@ == branch_targets(edges@, sp@, src, i as nat),
        decreases edges@.len() - i,
    {
        let e = edges[i];
        if e.0 == src && !is_spine_edge_exec(sp, e.0, e.1) {
            out.push(e.1);
        }
        i += 1;
    }
    out
}

/// Render the state diagram of `category` with `current` highlighted
/// (see [`state_diagram`]).
pub fn render_state_diagram(category: &str, current: &str) -> (r: Vec<String>)
    ensures
        strs(r@) == state_diagram(category@, current@),
{
    let def = match category_definition(category) {
        Some(d) => d,
        None => {
            let mut v = chars_of("  (unknown category `");
            push_str(&mut v, category);
            push_str(&mut v, "`)");
            let mut out: Vec<String> = Vec::new();
            out.push(string_of(v.as_slice()));
            proof {
                assert(strs(out@) =~= state_diagram(category@, current@));
            }
            return out;
        },
    };
    let edges = def.transitions;
    let sp = spine_exec(category);
    let mut lines: Vec<Vec<char>> = Vec::new();
    // the spine
    let mut parts: Vec<Vec<char>> = Vec::new();
    let mut k: usize = 0;
    while k < sp.len()
        invariant
            k <= sp@.len(),
            parts@.len() == k,
            forall|j: int| 0 <= j < k ==> #[trigger] parts@[j]@ == fmt_state(sp@[j], current@),
        decreases sp@.len() - k,
    {
        parts.push(fmt_state_exec(sp[k], current));
        k += 1;
    }
    let arrow = chars_of(" → ");
    let joined = join_chars(&parts, arrow.as_slice());
    let mut first = chars_of("  ");
    append_chars(&mut first, joined.as_slice());
    proof {
        assert(views(parts@) =~= Seq::new(sp@.len(), |i: int| fmt_state(sp@[i], current@)));
    }
    lines.push(first);
    let ghost head = views(lines@);
    // branches under each spine state
    let mut offset: usize = 2;
    let mut k: usize = 0;
    while k < sp.len()
        invariant
            k <= sp@.len(),
            sp@.len() <= 5,
            offset == spine_offset(sp@, current@, k as nat),
            offset <= 2 + 15 * k,
            views(lines@) == head + spine_branches(edges@, sp@, current@, k as nat),
        decreases sp@.len() - k,
    {
        let src = sp[k];
        let targets = branch_targets_exec(&edges, &sp, src);
        let ghost before = views(lines@);
        let mut t: usize = 0;
        while t < targets.len()
            invariant
                t <= targets@.len(),
                views(lines@) == before + branch_lines(targets@, offset as nat, current@).take(t as int),
            decreases targets@.len() - t,
        {
            let mut line = repeat_exec(' ', offset);
            if t + 1 < targets.len() {
                push_str(&mut line, "├→");
            } else {
                push_str(&mut line, "└→");
            }
            push_str(&mut line, " ");
            let f = fmt_state_exec(targets[t], current);
            append_chars(&mut line, f.as_slice());
            let ghost prev = views(lines@);
            lines.push(line);
            proof {
                assert(views(lines@) =~= prev.push(line@));
                assert(branch_lines(targets@, offset as nat, current@).take(t + 1)
                    =~= branch_lines(targets@, offset as nat, current@).take(t as int).push(line@));
            }
            t += 1;
        }
        proof {
            assert(branch_lines(targets@, offset as nat, current@).take(t as int)
                =~= branch_lines(targets@, offset as nat, current@));
            assert(head + spine_branches(edges@, sp@, current@, (k + 1) as nat)
                =~= head + spine_branches(edges@, sp@, current@, k as nat)
                + branch_lines(targets@, offset as nat, current@));
        }
        let w = fmt_state_exec(src, current);
        proof {
            assert(w@.len() <= 12) by {
                reveal_strlit("draft");
                reveal_strlit("open");
                reveal_strlit("working");
                reveal_strlit("review");
                reveal_strlit("done");
                reveal_strlit("rejected");
                reveal_strlit("withdrawn");
                reveal_strlit("deprecated");
                reveal_strlit("[");
                reveal_strlit("]");
            }
        }
        offset = offset + w.len() + 3;
        k += 1;
    }
    // edges leaving states off the spine
    let ghost mid = views(lines@);
    let mut i: usize = 0;
    while i < edges.len()
        invariant
            i <= edges@.len(),
            views(lines@) == mid + off_spine_lines(edges@, sp@, current@, i as nat),
        decreases edges@.len() - i,
    {
        let e = edges[i];
        if !spine_contains(&sp, e.0) {
            let mut line = chars_of("  ");
            let a = fmt_state_exec(e.0, current);
            append_chars(&mut line, a.as_slice());
            push_str(&mut line, " → ");
            let b = fmt_state_exec(e.1, current);
            append_chars(&mut line, b.as_slice());
            let ghost prev = views(lines@);
            lines.push(line);
            proof {
                assert(views(lines@) =~= prev.push(line@));
            }
        }
        i += 1;
    }
    proof {
        assert(views(lines@) =~= state_diagram(category@, current@));
    }
    to_strings(&lines)
}

// ---------------------------------------------------------------------------
// `show --tree`
// ---------------------------------------------------------------------------

/// One row of the `show --tree` advisory: a thread that links to the shown
/// thread with `implements`.
#[derive(Debug, Clone)]
pub struct TreeChild {
    pub id: String,
    pub title: String,
    pub lifecycle_label: String,
    pub status: String,
}

/// The line of one child; the last child gets the closing connector.
pub open spec fn tree_child_line(c: TreeChild, last: bool) -> Seq<char> {
    (if last { "└──"@ } else { "├──"@ }) + " "@ + c.id@ + "  "@ + c.lifecycle_label@ + "/"@ + c.status@
        + "   "@ + c.title@
}

/// The `show --tree` advisory of a thread and its `implements` children.
pub open spec fn tree_text(parent: ThreadState, children: Seq<TreeChild>) -> Seq<char> {
    let head = parent.id@ + "  "@ + lifecycle_name(lifecycle_for_category(parent.category@, strs(parent.tags@)))
        + "/"@ + parent.status@ + "    "@ + parent.title@;
    let body = if children.len() == 0 {
        seq!["  (no incoming `implements` links)"@]
    } else {
        Seq::new(children.len(), |i: int| tree_child_line(children[i], i == children.len() - 1))
    };
    join(seq![head] + body + seq![Seq::<char>::empty()], "\n"@)
}

/// Law of [`render_tree`]: its text is the parent's line, then one line per child in
/// order (only the last with the closing connector) or the note that
/// there is none, joined by newlines, with a closing newline.
pub proof fn lemma_tree_text_lines(parent: ThreadState, children: Seq<TreeChild>)
    ensures
        ({
            let head = parent.id@ + "  "@ + lifecycle_name(lifecycle_for_category(parent.category@, strs(parent.tags@)))
                + "/"@ + parent.status@ + "    "@ + parent.title@;
            let lines = if children.len() == 0 {
                seq![head, "  (no incoming `implements` links)"@]
            } else {
                seq![head] + Seq::new(children.len(), |i: int| tree_child_line(children[i], i + 1 == children.len()))
            };
            tree_text(parent, children) == join(lines, "\n"@) + "\n"@
        }),
{
    let head = parent.id@ + "  "@ + lifecycle_name(lifecycle_for_category(parent.category@, strs(parent.tags@)))
        + "/"@ + parent.status@ + "    "@ + parent.title@;
    let body = if children.len() == 0 {
        seq!["  (no incoming `implements` links)"@]
    } else {
        Seq::new(children.len(), |i: int| tree_child_line(children[i], i == children.len() - 1))
    };
    let lines = seq![head] + body;
    let all = lines + seq![Seq::<char>::empty()];
    assert(all.drop_last() =~= lines);
    assert(all.last() == Seq::<char>::empty());
    assert(join(all, "\n"@) =~= join(lines, "\n"@) + "\n"@ + Seq::<char>::empty());
    if children.len() == 0 {
        assert(lines =~= seq![head, "  (no incoming `implements` links)"@]);
    } else {
        assert(lines =~= seq![head] + Seq::new(children.len(), |i: int| tree_child_line(children[i], i + 1 == children.len())));
    }
}

/// Render the `show --tree` advisory (informational only).
pub fn render_tree(parent: &ThreadState, children: &[TreeChild]) -> (r: String)
    ensures
        r@ == tree_text(*parent, children@),
{
    let label = lifecycle_label_for(parent.category.as_str(), parent.tags.as_slice());
    let mut head = chars_of(parent.id.as_str());
    push_str(&mut head, "  ");
    push_str(&mut head, label);
    push_str(&mut head, "/");
    push_str(&mut head, parent.status.as_str());
    push_str(&mut head, "    ");
    push_str(&mut head, parent.title.as_str());
    let mut out: Vec<Vec<char>> = Vec::new();
    out.push(head);
    let ghost first = views(out@);
    proof {
        assert(first =~= seq![parent.id@ + "  "@ + lifecycle_name(lifecycle_for_category(parent.category@, strs(parent.tags@)))
            + "/"@ + parent.status@ + "    "@ + parent.title@]);
    }
    if children.len() == 0 {
        let ghost prev = views(out@);
        let none = chars_of("  (no incoming `implements` links)");
        out.push(none);
        proof {
            assert(views(out@) =~= prev.push(none@));
        }
    } else {
        let mut i: usize = 0;
        while i < children.len()
            invariant
                i <= children@.len(),
                children@.len() > 0,
                views(out@) == first + Seq::new(i as nat, |j: int| tree_child_line(children@[j], j == children@.len() - 1)),
            decreases children@.len() - i,
        {
            let c = &children[i];
            let mut line = if i + 1 == children.len() {
                chars_of("└──")
            } else {
                chars_of("├──")
            };
            push_str(&mut line, " ");
            push_str(&mut line, c.id.as_str());
            push_str(&mut line, "  ");
            push_str(&mut line, c.lifecycle_label.as_str());
            push_str(&mut line, "/");
            push_str(&mut line, c.status.as_str());
            push_str(&mut line, "   ");
            push_str(&mut line, c.title.as_str());
            let ghost prev = views(out@);
            out.push(line);
            proof {
                assert(views(out@) =~= prev.push(line@));
                assert(views(out@) =~= first + Seq::new((i + 1) as nat, |j: int| tree_child_line(children@[j], j == children@.len() - 1)));
            }
            i += 1;
        }
    }
    let ghost before_last = views(out@);
    out.push(Vec::new());
    proof {
        assert(views(out@) =~= before_last.push(Seq::<char>::empty()));
        let body = if children@.len() == 0 {
            seq!["  (no incoming `implements` links)"@]
        } else {
            Seq::new(children@.len(), |i: int| tree_child_line(children@[i], i == children@.len() - 1))
        };
        assert(views(out@) =~= seq![first[0]] + body + seq![Seq::<char>::empty()]);
    }
    join_to_string(&out, "\n")
}

/// Arguments of `git forum show`.
pub struct ShowArgs {
    pub thread_id: String,
    pub what_next: bool,
    pub compact: bool,
    pub no_timeline: bool,
    pub tree: bool,
}

// ---------------------------------------------------------------------------
// Sections of the full view
// ---------------------------------------------------------------------------

/// One block of `git forum show`; a block with no rows prints nothing.
#[derive(Debug, Clone)]
pub enum Section {
    /// Lines already formatted.
    Text(Vec<String>),
    /// Open objections.
    OpenObjections(OpenItemsSection),
    /// Open actions.
    OpenActions(OpenItemsSection),
    /// Root nodes with their replies.
    Conversations(ConversationsSection),
}

/// The rows of an open-objections or open-actions block.
#[derive(Debug, Clone)]
pub struct OpenItemsSection {
    pub thread_id: String,
    pub items: Vec<OpenItem>,
    /// Objections also get the `reply:` line; actions only `resolve:`.
    pub with_reply: bool,
    /// Compact previews are cut to 60 characters; else the first line.
    pub compact: bool,
}

#[derive(Debug, Clone)]
pub struct OpenItem {
    pub id_short: String,
    pub author: String,
    pub body: String,
    pub kind: NodeType,
}

/// The chains of the conversations block.
#[derive(Debug, Clone)]
pub struct ConversationsSection {
    pub thread_id: String,
    pub chains: Vec<ConversationChain>,
    pub compact: bool,
    /// How many nodes were incorporated (shown in compact mode).
    pub incorporated_count: usize,
}

#[derive(Debug, Clone)]
pub struct ConversationChain {
    /// The root first, then its replies.
    pub nodes: Vec<ConversationNode>,
    /// Whether the last node is still open (it then gets a `reply:` line).
    pub last_is_open: bool,
}

#[derive(Debug, Clone)]
pub struct ConversationNode {
    pub id_short: String,
    pub kind: NodeType,
    /// The label shown: the legacy subtype when set, else the type name.
    pub label: String,
    pub status_label: String,
    pub author: String,
    pub body: String,
}

/// The first line of a text (empty when it has none).
pub open spec fn first_line(s: Seq<char>) -> Seq<char> {
    if lines(s).len() == 0 {
        Seq::<char>::empty()
    } else {
        lines(s)[0]
    }
}

/// The first line, cut to `max` characters and `…` when longer.
pub open spec fn first_line_cut(s: Seq<char>, max: nat) -> Seq<char> {
    let f = first_line(s);
    if f.len() <= max {
        f
    } else {
        f.take(max as int) + "…"@
    }
}

/// An item's preview: cut to `max` characters in compact mode, else its
/// first line.
pub open spec fn body_preview(s: Seq<char>, max: nat, compact: bool) -> Seq<char> {
    if compact {
        truncated(s, max)
    } else {
        first_line(s)
    }
}

fn first_line_exec(s: &str) -> (r: Vec<char>)
    ensures
        r@ == first_line(s@),
{
    let cs = chars_of(s);
    let ls = lines_of(cs.as_slice());
    if ls.len() == 0 {
        Vec::new()
    } else {
        proof {
            assert(views(ls@)[0] == ls@[0]@);
        }
        ls[0].clone()
    }
}

fn first_line_cut_exec(s: &str, max: usize) -> (r: Vec<char>)
    ensures
        r@ == first_line_cut(s@, max as nat),
{
    let f = first_line_exec(s);
    if f.len() <= max {
        f
    } else {
        let mut t = take_chars(f.as_slice(), max);
        push_str(&mut t, "…");
        t
    }
}

fn body_preview_exec(s: &str, max: usize, compact: bool) -> (r: Vec<char>)
    ensures
        r@ == body_preview(s@, max as nat, compact),
{
    if compact {
        let t = truncate_body(s, max);
        chars_of(t.as_str())
    } else {
        first_line_exec(s)
    }
}

pub open spec fn item_lines(sec: OpenItemsSection, it: OpenItem) -> Seq<Seq<char>> {
    seq![
        "  "@ + it.id_short@ + "  "@ + it.author@ + "  "@ + body_preview(it.body@, 60, sec.compact),
        "    resolve: git forum resolve "@ + sec.thread_id@ + " "@ + it.id_short@,
    ] + if sec.with_reply {
        seq!["    reply:   git forum claim "@ + sec.thread_id@ + " --reply-to "@ + it.id_short@ + " --body \"...\""@]
    } else {
        seq![]
    }
}

pub open spec fn items_lines(sec: OpenItemsSection, items: Seq<OpenItem>) -> Seq<Seq<char>>
    decreases items.len(),
{
    if items.len() == 0 {
        seq![]
    } else {
        items_lines(sec, items.drop_last()) + item_lines(sec, items.last())
    }
}

/// The lines of an open-items block: a `## header (n)` heading, a blank,
/// each item with its `resolve:` (and for objections `reply:`) line, and
/// a blank; nothing when there are no items.
pub open spec fn open_items_text(sec: OpenItemsSection, header: Seq<char>) -> Seq<Seq<char>> {
    if sec.items@.len() == 0 {
        seq![]
    } else {
        seq!["## "@ + header + " ("@ + crate::text::decimal(sec.items@.len()) + ")"@, Seq::<char>::empty()]
            + items_lines(sec, sec.items@) + seq![Seq::<char>::empty()]
    }
}

fn push_line(out: &mut Vec<String>, v: Vec<char>)
    ensures
        strs(final(out)@) == strs(old(out)@).push(v@),
{
    let ghost before = strs(out@);
    out.push(string_of(v.as_slice()));
    proof {
        assert(strs(out@) =~= before.push(v@));
    }
}

fn item_lines_exec(out: &mut Vec<String>, sec: &OpenItemsSection, it: &OpenItem)
    ensures
        strs(final(out)@) == strs(old(out)@) + item_lines(*sec, *it),
{
    let ghost start = strs(out@);
    let mut a = chars_of("  ");
    push_str(&mut a, it.id_short.as_str());
    push_str(&mut a, "  ");
    push_str(&mut a, it.author.as_str());
    push_str(&mut a, "  ");
    let p = body_preview_exec(it.body.as_str(), 60, sec.compact);
    append_chars(&mut a, p.as_slice());
    push_line(out, a);
    let mut b = chars_of("    resolve: git forum resolve ");
    push_str(&mut b, sec.thread_id.as_str());
    push_str(&mut b, " ");
    push_str(&mut b, it.id_short.as_str());
    push_line(out, b);
    if sec.with_reply {
        let mut c = chars_of("    reply:   git forum claim ");
        push_str(&mut c, sec.thread_id.as_str());
        push_str(&mut c, " --reply-to ");
        push_str(&mut c, it.id_short.as_str());
        push_str(&mut c, " --body \"...\"");
        push_line(out, c);
    }
    proof {
        assert(strs(out@) =~= start + item_lines(*sec, *it));
    }
}

fn open_items_lines(sec: &OpenItemsSection, header: &str) -> (r: Vec<String>)
    ensures
        strs(r@) == open_items_text(*sec, header@),
{
    let mut out: Vec<String> = Vec::new();
    if sec.items.len() == 0 {
        proof {
            assert(strs(out@) =~= Seq::<Seq<char>>::empty());
        }
        return out;
    }
    let mut h = chars_of("## ");
    push_str(&mut h, header);
    push_str(&mut h, " (");
    crate::text::push_usize(&mut h, sec.items.len());
    push_str(&mut h, ")");
    push_line(&mut out, h);
    push_line(&mut out, Vec::new());
    let ghost head = strs(out@);
    let mut i: usize = 0;
    while i < sec.items.len()
        invariant
            i <= sec.items@.len(),
            strs(out@) == head + items_lines(*sec, sec.items@.take(i as int)),
        decreases sec.items@.len() - i,
    {
        proof {
            assert(sec.items@.take(i + 1).drop_last() =~= sec.items@.take(i as int));
        }
        item_lines_exec(&mut out, sec, &sec.items[i]);
        proof {
            assert(head + items_lines(*sec, sec.items@.take(i as int)) + item_lines(*sec, sec.items@[i as int])
                =~= head + items_lines(*sec, sec.items@.take(i + 1)));
        }
        i += 1;
    }
    proof {
        assert(sec.items@.take(i as int) =~= sec.items@);
    }
    push_line(&mut out, Vec::new());
    out
}

pub open spec fn compact_chain_line(c: ConversationChain) -> Seq<char> {
    let root = c.nodes@[0];
    "  "@ + root.id_short@ + " "@ + root.label@ + " ["@ + root.status_label@ + "] "@ + root.author@ + " — "@
        + preview(root.body@, 60)
}

pub open spec fn reply_line(n: ConversationNode) -> Seq<char> {
    "- "@ + n.id_short@ + " "@ + n.label@ + " "@ + n.author@ + " — "@ + first_line_cut(n.body@, 80)
}

/// The lines of one chain in full mode: a `###` heading for the root, its
/// first line quoted, a bullet per reply, the `reply:` line when the last
/// node is open, and a blank between chains.
pub open spec fn chain_lines(sec: ConversationsSection, c: ConversationChain, last: bool) -> Seq<Seq<char>> {
    let root = c.nodes@[0];
    seq![
        "### "@ + root.id_short@ + " "@ + root.label@ + " ["@ + root.status_label@ + "] "@ + root.author@,
        "> "@ + first_line_cut(root.body@, 100),
    ] + Seq::new((c.nodes@.len() - 1) as nat, |k: int| reply_line(c.nodes@[k + 1])) + (if c.last_is_open {
        seq![
            Seq::<char>::empty(),
            "    reply: git forum claim "@ + sec.thread_id@ + " --reply-to "@ + c.nodes@.last().id_short@
                + " --body \"...\""@,
        ]
    } else {
        seq![]
    }) + (if last {
        seq![]
    } else {
        seq![Seq::<char>::empty()]
    })
}

pub open spec fn chains_lines(sec: ConversationsSection, cs: Seq<ConversationChain>, total: nat) -> Seq<Seq<char>>
    decreases cs.len(),
{
    if cs.len() == 0 {
        seq![]
    } else {
        chains_lines(sec, cs.drop_last(), total) + if sec.compact {
            seq![compact_chain_line(cs.last())]
        } else {
            chain_lines(sec, cs.last(), cs.len() == total)
        }
    }
}

/// The lines of the conversations block (nothing when there are no
/// chains): in compact mode one line per root, with the count of
/// incorporated nodes in the heading; else each chain in full.
pub open spec fn conversations_text(sec: ConversationsSection) -> Seq<Seq<char>> {
    let n = sec.chains@.len();
    if n == 0 {
        seq![]
    } else {
        let heading = "## Conversations ("@ + crate::text::decimal(n) + ")"@ + if sec.compact
            && sec.incorporated_count > 0 {
            " ("@ + crate::text::decimal(sec.incorporated_count as nat) + " incorporated)"@
        } else {
            Seq::<char>::empty()
        };
        seq![heading, Seq::<char>::empty()] + chains_lines(sec, sec.chains@, n) + seq![Seq::<char>::empty()]
    }
}

/// Every chain starts with its root.
pub open spec fn chains_rooted(sec: ConversationsSection) -> bool {
    forall|i: int| 0 <= i < sec.chains@.len() ==> (#[trigger] sec.chains@[i]).nodes@.len() > 0
}

fn chain_lines_exec(out: &mut Vec<String>, sec: &ConversationsSection, c: &ConversationChain, last: bool)
    requires
        c.nodes@.len() > 0,
    ensures
        strs(final(out)@) == strs(old(out)@) + chain_lines(*sec, *c, last),
{
    let ghost start = strs(out@);
    let root = &c.nodes[0];
    let mut h = chars_of("### ");
    push_str(&mut h, root.id_short.as_str());
    push_str(&mut h, " ");
    push_str(&mut h, root.label.as_str());
    push_str(&mut h, " [");
    push_str(&mut h, root.status_label.as_str());
    push_str(&mut h, "] ");
    push_str(&mut h, root.author.as_str());
    push_line(out, h);
    let mut q = chars_of("> ");
    let f = first_line_cut_exec(root.body.as_str(), 100);
    append_chars(&mut q, f.as_slice());
    push_line(out, q);
    let ghost mid = strs(out@);
    let mut k: usize = 1;
    while k < c.nodes.len()
        invariant
            1 <= k <= c.nodes@.len(),
            strs(out@) == mid + Seq::new((k - 1) as nat, |j: int| reply_line(c.nodes@[j + 1])),
        decreases c.nodes@.len() - k,
    {
        let n = &c.nodes[k];
        let mut v = chars_of("- ");
        push_str(&mut v, n.id_short.as_str());
        push_str(&mut v, " ");
        push_str(&mut v, n.label.as_str());
        push_str(&mut v, " ");
        push_str(&mut v, n.author.as_str());
        push_str(&mut v, " — ");
        let p = first_line_cut_exec(n.body.as_str(), 80);
        append_chars(&mut v, p.as_slice());
        push_line(out, v);
        proof {
            assert(strs(out@) =~= mid + Seq::new(k as nat, |j: int| reply_line(c.nodes@[j + 1])));
        }
        k += 1;
    }
    let ghost after_replies = strs(out@);
    if c.last_is_open {
        push_line(out, Vec::new());
        let mut r = chars_of("    reply: git forum claim ");
        push_str(&mut r, sec.thread_id.as_str());
        push_str(&mut r, " --reply-to ");
        push_str(&mut r, c.nodes[c.nodes.len() - 1].id_short.as_str());
        push_str(&mut r, " --body \"...\"");
        push_line(out, r);
    }
    if !last {
        push_line(out, Vec::new());
    }
    proof {
        assert(strs(out@) =~= start + chain_lines(*sec, *c, last));
    }
}

fn compact_chain_line_exec(c: &ConversationChain) -> (r: Vec<char>)
    requires
        c.nodes@.len() > 0,
    ensures
        r@ == compact_chain_line(*c),
{
    let root = &c.nodes[0];
    let mut v = chars_of("  ");
    push_str(&mut v, root.id_short.as_str());
    push_str(&mut v, " ");
    push_str(&mut v, root.label.as_str());
    push_str(&mut v, " [");
    push_str(&mut v, root.status_label.as_str());
    push_str(&mut v, "] ");
    push_str(&mut v, root.author.as_str());
    push_str(&mut v, " — ");
    let p = single_line_preview(root.body.as_str(), 60);
    push_str(&mut v, p.as_str());
    v
}

fn conversations_lines(sec: &ConversationsSection) -> (r: Vec<String>)
    requires
        chains_rooted(*sec),
    ensures
        strs(r@) == conversations_text(*sec),
{
    let mut out: Vec<String> = Vec::new();
    let n = sec.chains.len();
    if n == 0 {
        proof {
            assert(strs(out@) =~= Seq::<Seq<char>>::empty());
        }
        return out;
    }
    let mut h = chars_of("## Conversations (");
    crate::text::push_usize(&mut h, n);
    push_str(&mut h, ")");
    if sec.compact && sec.incorporated_count > 0 {
        push_str(&mut h, " (");
        crate::text::push_usize(&mut h, sec.incorporated_count);
        push_str(&mut h, " incorporated)");
    }
    let ghost heading = "## Conversations ("@ + crate::text::decimal(n as nat) + ")"@ + if sec.compact
        && sec.incorporated_count > 0 {
        " ("@ + crate::text::decimal(sec.incorporated_count as nat) + " incorporated)"@
    } else {
        Seq::<char>::empty()
    };
    assert(h@ =~= heading);
    push_line(&mut out, h);
    push_line(&mut out, Vec::new());
    let ghost head = strs(out@);
    assert(head =~= seq![heading, Seq::<char>::empty()]);
    let mut i: usize = 0;
    while i < n
        invariant
            i <= n,
            n == sec.chains@.len(),
            chains_rooted(*sec),
            strs(out@) == head + chains_lines(*sec, sec.chains@.take(i as int), n as nat),
        decreases n - i,
    {
        proof {
            assert(sec.chains@.take(i + 1).drop_last() =~= sec.chains@.take(i as int));
            assert(sec.chains@[i as int].nodes@.len() > 0);
        }
        let c = &sec.chains[i];
        let ghost before = strs(out@);
        if sec.compact {
            let line = compact_chain_line_exec(c);
            push_line(&mut out, line);
        } else {
            chain_lines_exec(&mut out, sec, c, i + 1 == n);
        }
        proof {
            assert(strs(out@) =~= head + chains_lines(*sec, sec.chains@.take(i + 1), n as nat));
        }
        i += 1;
    }
    proof {
        assert(sec.chains@.take(i as int) =~= sec.chains@);
    }
    push_line(&mut out, Vec::new());
    proof {
        assert(strs(out@) =~= seq![heading, Seq::<char>::empty()] + chains_lines(*sec, sec.chains@, n as nat) + seq![
            Seq::<char>::empty(),
        ]);
    }
    out
}

/// The plain-text lines of a section.
pub open spec fn section_text(s: Section) -> Seq<Seq<char>> {
    match s {
        Section::Text(ls) => strs(ls@),
        Section::OpenObjections(sec) => open_items_text(sec, "Open objections"@),
        Section::OpenActions(sec) => open_items_text(sec, "Open actions"@),
        Section::Conversations(sec) => conversations_text(sec),
    }
}

impl Section {
    /// The section as plain-text lines (see [`section_text`]); empty
    /// sections give no lines. Every conversation chain has its root.
    pub fn to_text_lines(&self) -> (r: Vec<String>)
        requires
            *self matches Section::Conversations(sec) ==> chains_rooted(sec),
        ensures
            strs(r@) == section_text(*self),
    {
        match self {
            Section::Text(ls) => crate::text::clone_strings(ls),
            Section::OpenObjections(sec) => open_items_lines(sec, "Open objections"),
            Section::OpenActions(sec) => open_items_lines(sec, "Open actions"),
            Section::Conversations(sec) => conversations_lines(sec),
        }
    }
}


// ---------------------------------------------------------------------------
// Node helpers shared by the thread views
// ---------------------------------------------------------------------------

/// The label shown for a node: its type's name (legacy subtypes such as
/// `summary` keep theirs).
pub open spec fn node_label(n: Node) -> Seq<char> {
    node_type_name(n.node_type)
}

/// The status word of a node.
pub open spec fn node_status_word(n: Node) -> Seq<char> {
    if n.retracted {
        "retracted"@
    } else if n.incorporated {
        "incorporated"@
    } else if n.resolved {
        "resolved"@
    } else {
        "open"@
    }
}

fn node_status_exec(n: &Node) -> (r: &'static str)
    ensures
        r@ == node_status_word(*n),
{
    if n.retracted {
        "retracted"
    } else if n.incorporated {
        "incorporated"
    } else if n.resolved {
        "resolved"
    } else {
        "open"
    }
}

/// Every node ID can be cut at 16 bytes on a character boundary.
pub open spec fn node_ids_cut_ok(nodes: Seq<Node>) -> bool {
    forall|i: int| 0 <= i < nodes.len() ==> cut_ok(#[trigger] nodes[i].node_id@)
}

fn short_id_exec(id: &str) -> (r: Vec<char>)
    ensures
        r@ == short_node_id(id@),
{
    let cs = chars_of(id);
    let k = prefix_within_exec(cs.as_slice(), 16);
    let r = slice_range(cs.as_slice(), 0, k);
    proof {
        assert(r@ =~= short_node_id(id@));
    }
    r
}

// ---------------------------------------------------------------------------
// Mode: status
// ---------------------------------------------------------------------------

/// One line per open node of type `t`: its short ID and body cut to 60
/// characters.
pub open spec fn status_item_lines(nodes: Seq<Node>, t: NodeType) -> Seq<Seq<char>>
    decreases nodes.len(),
{
    if nodes.len() == 0 {
        seq![]
    } else {
        let rest = status_item_lines(nodes.drop_last(), t);
        if is_open_node(nodes.last(), t) {
            rest.push("    - "@ + short_node_id(nodes.last().node_id@) + " "@ + truncated(nodes.last().body@, 60))
        } else {
            rest
        }
    }
}

/// A group of open nodes with its count; nothing when there are none.
pub open spec fn status_group(label: Seq<char>, nodes: Seq<Node>, t: NodeType) -> Seq<Seq<char>> {
    if open_count(nodes, t) == 0 {
        seq![]
    } else {
        seq!["  "@ + label + " ("@ + decimal(open_count(nodes, t)) + ")"@] + status_item_lines(nodes, t)
    }
}

/// `git forum status`: the thread's ID (padded to 12), title and status,
/// then its open objections, actions and questions, or `no open items`.
pub open spec fn status_text(s: ThreadState) -> Seq<char> {
    let nodes = s.nodes@;
    let head = pad_right(s.id@, 12) + " "@ + s.title@ + " ("@ + s.status@ + ")"@;
    let body = if open_count(nodes, NodeType::Objection) == 0 && open_count(nodes, NodeType::Action) == 0
        && open_count(nodes, NodeType::Question) == 0 {
        seq!["  no open items"@]
    } else {
        status_group("objections"@, nodes, NodeType::Objection) + status_group("actions"@, nodes, NodeType::Action)
            + status_group("questions"@, nodes, NodeType::Question)
    };
    join(seq![head] + body + seq![Seq::<char>::empty()], "\n"@)
}

fn push_chars_line(out: &mut Vec<Vec<char>>, v: Vec<char>)
    ensures
        views(final(out)@) == views(old(out)@).push(v@),
{
    let ghost before = views(out@);
    out.push(v);
    proof {
        assert(views(out@) =~= before.push(v@));
    }
}

fn status_group_exec(out: &mut Vec<Vec<char>>, label: &str, nodes: &Vec<Node>, t: NodeType)
    ensures
        views(final(out)@) == views(old(out)@) + status_group(label@, nodes@, t),
{
    let ghost start = views(out@);
    let n = open_count_exec(nodes, t);
    if n == 0 {
        proof {
            assert(views(out@) =~= start + status_group(label@, nodes@, t));
        }
        return;
    }
    let mut h = chars_of("  ");
    push_str(&mut h, label);
    push_str(&mut h, " (");
    push_usize(&mut h, n);
    push_str(&mut h, ")");
    push_chars_line(out, h);
    let ghost head = views(out@);
    let mut i: usize = 0;
    while i < nodes.len()
        invariant
            i <= nodes@.len(),
            views(out@) == head + status_item_lines(nodes@.take(i as int), t),
        decreases nodes@.len() - i,
    {
        proof {
            assert(nodes@.take(i + 1).drop_last() =~= nodes@.take(i as int));
            assert(nodes@.take(i + 1).last() == nodes@[i as int]);
        }
        let x = &nodes[i];
        if x.node_type == t && !x.resolved && !x.retracted && !x.incorporated {
            let mut v = chars_of("    - ");
            let sid = short_id_exec(x.node_id.as_str());
            append_chars(&mut v, sid.as_slice());
            push_str(&mut v, " ");
            let b = truncate_body(x.body.as_str(), 60);
            push_str(&mut v, b.as_str());
            let ghost before = views(out@);
            push_chars_line(out, v);
            proof {
                assert(views(out@) =~= head + status_item_lines(nodes@.take(i + 1), t));
            }
        }
        i += 1;
    }
    proof {
        assert(nodes@.take(i as int) =~= nodes@);
        assert(views(out@) =~= start + status_group(label@, nodes@, t));
    }
}

fn render_status_block(s: &ThreadState) -> (r: String)
    requires
        node_ids_cut_ok(s.nodes@),
    ensures
        r@ == status_text(*s),
{
    let mut lines: Vec<Vec<char>> = Vec::new();
    let idc = chars_of(s.id.as_str());
    let mut head = pad_right_exec(idc.as_slice(), 12);
    push_str(&mut head, " ");
    push_str(&mut head, s.title.as_str());
    push_str(&mut head, " (");
    push_str(&mut head, s.status.as_str());
    push_str(&mut head, ")");
    proof {
        assert(head@ =~= pad_right(s.id@, 12) + " "@ + s.title@ + " ("@ + s.status@ + ")"@);
    }
    push_chars_line(&mut lines, head);
    let ghost first = views(lines@);
    let no = open_count_exec(&s.nodes, NodeType::Objection);
    let na = open_count_exec(&s.nodes, NodeType::Action);
    let nq = open_count_exec(&s.nodes, NodeType::Question);
    if no == 0 && na == 0 && nq == 0 {
        push_chars_line(&mut lines, chars_of("  no open items"));
    } else {
        status_group_exec(&mut lines, "objections", &s.nodes, NodeType::Objection);
        status_group_exec(&mut lines, "actions", &s.nodes, NodeType::Action);
        status_group_exec(&mut lines, "questions", &s.nodes, NodeType::Question);
    }
    push_chars_line(&mut lines, Vec::new());
    proof {
        let nodes = s.nodes@;
        let body = if open_count(nodes, NodeType::Objection) == 0 && open_count(nodes, NodeType::Action) == 0
            && open_count(nodes, NodeType::Question) == 0 {
            seq!["  no open items"@]
        } else {
            status_group("objections"@, nodes, NodeType::Objection) + status_group("actions"@, nodes, NodeType::Action)
                + status_group("questions"@, nodes, NodeType::Question)
        };
        assert(views(lines@) =~= first + body + seq![Seq::<char>::empty()]);
        let head = pad_right(s.id@, 12) + " "@ + s.title@ + " ("@ + s.status@ + ")"@;
        assert(first =~= seq![head]);
        assert(views(lines@) =~= seq![head] + body + seq![Seq::<char>::empty()]);
    }
    join_to_string(&lines, "\n")
}

// ---------------------------------------------------------------------------
// Next statuses and their guards
// ---------------------------------------------------------------------------

/// How a guard violation is listed among blockers: its rule, and with
/// `verbose` its reason too.
pub open spec fn blockers(v: Seq<(Seq<char>, Seq<char>)>, verbose: bool) -> Seq<Seq<char>> {
    Seq::new(v.len(), |i: int| if verbose { v[i].0 + ": "@ + v[i].1 } else { v[i].0 })
}

/// A next status, with the guards that block it.
pub open spec fn target_with_blockers(p: Policy, s: ThreadState, target: Seq<char>, verbose: bool) -> Seq<char> {
    let v = violations_of(guard_rules(p, s, s.status@, target), s);
    if v.len() == 0 {
        target
    } else {
        target + " (blocked: "@ + join(blockers(v, verbose), if verbose { "; "@ } else { ", "@ }) + ")"@
    }
}

pub open spec fn targets_with_blockers(p: Policy, s: ThreadState, ts: Seq<Seq<char>>, verbose: bool) -> Seq<
    Seq<char>,
> {
    Seq::new(ts.len(), |i: int| target_with_blockers(p, s, ts[i], verbose))
}

fn target_with_blockers_exec(p: &Policy, s: &ThreadState, target: &str, verbose: bool) -> (r: Vec<char>)
    ensures
        r@ == target_with_blockers(*p, *s, target@, verbose),
{
    let vs = check_guards(p, s, s.status.as_str(), target);
    let mut out = chars_of(target);
    if vs.len() == 0 {
        return out;
    }
    let mut parts: Vec<Vec<char>> = Vec::new();
    let ghost v = violation_view(vs@);
    let mut i: usize = 0;
    while i < vs.len()
        invariant
            i <= vs@.len(),
            v == violation_view(vs@),
            views(parts@) == blockers(v, verbose).take(i as int),
        decreases vs@.len() - i,
    {
        let mut b = chars_of(vs[i].rule.as_str());
        if verbose {
            push_str(&mut b, ": ");
            push_str(&mut b, vs[i].reason.as_str());
        }
        let ghost before = views(parts@);
        parts.push(b);
        proof {
            assert(views(parts@) =~= before.push(b@));
            assert(blockers(v, verbose).take(i + 1) =~= blockers(v, verbose).take(i as int).push(b@));
        }
        i += 1;
    }
    proof {
        assert(blockers(v, verbose).take(i as int) =~= blockers(v, verbose));
    }
    push_str(&mut out, " (blocked: ");
    let sep = if verbose { chars_of("; ") } else { chars_of(", ") };
    let j = join_chars(&parts, sep.as_slice());
    append_chars(&mut out, j.as_slice());
    push_str(&mut out, ")");
    out
}

fn targets_with_blockers_exec(p: &Policy, s: &ThreadState, ts: &Vec<&'static str>, verbose: bool) -> (r: Vec<Vec<char>>)
    ensures
        views(r@) == targets_with_blockers(*p, *s, str_views(ts@), verbose),
{
    let mut out: Vec<Vec<char>> = Vec::new();
    let mut i: usize = 0;
    while i < ts.len()
        invariant
            i <= ts@.len(),
            views(out@) == targets_with_blockers(*p, *s, str_views(ts@), verbose).take(i as int),
        decreases ts@.len() - i,
    {
        let t = target_with_blockers_exec(p, s, ts[i], verbose);
        let ghost before = views(out@);
        out.push(t);
        proof {
            assert(views(out@) =~= before.push(t@));
            assert(targets_with_blockers(*p, *s, str_views(ts@), verbose).take(i + 1)
                =~= targets_with_blockers(*p, *s, str_views(ts@), verbose).take(i as int).push(t@));
        }
        i += 1;
    }
    proof {
        assert(targets_with_blockers(*p, *s, str_views(ts@), verbose).take(i as int)
            =~= targets_with_blockers(*p, *s, str_views(ts@), verbose));
    }
    out
}

// ---------------------------------------------------------------------------
// Mode: action hint
// ---------------------------------------------------------------------------

/// One line per open node of type `t` telling how to resolve it.
pub open spec fn resolve_lines(nodes: Seq<Node>, t: NodeType, word: Seq<char>, id: Seq<char>) -> Seq<Seq<char>>
    decreases nodes.len(),
{
    if nodes.len() == 0 {
        seq![]
    } else {
        let rest = resolve_lines(nodes.drop_last(), t, word, id);
        if is_open_node(nodes.last(), t) {
            let sid = short_node_id(nodes.last().node_id@);
            rest.push("    "@ + word + " "@ + sid + " — resolve with: resolve "@ + id + " "@ + sid)
        } else {
            rest
        }
    }
}

/// The hint printed after a state change: the next statuses with their
/// blockers (rule and reason), then the open objections and actions with
/// how to resolve each.
pub open spec fn action_hint_text(p: Policy, s: ThreadState) -> Seq<char> {
    let ts = next_targets(s);
    let nodes = s.nodes@;
    let no = open_count(nodes, NodeType::Objection);
    let na = open_count(nodes, NodeType::Action);
    let first = if ts.len() == 0 {
        "  next: (no transitions available)"@
    } else {
        "  next: "@ + join(targets_with_blockers(p, s, ts, true), ", "@)
    };
    let open = if no == 0 && na == 0 {
        seq![]
    } else {
        let items = (if no > 0 {
            seq![decimal(no) + " open objection(s)"@]
        } else {
            seq![]
        }) + (if na > 0 {
            seq![decimal(na) + " open action(s)"@]
        } else {
            seq![]
        });
        seq!["  open: "@ + join(items, ", "@)] + resolve_lines(nodes, NodeType::Objection, "objection"@, s.id@)
            + resolve_lines(nodes, NodeType::Action, "action"@, s.id@)
    };
    join(seq![first] + open, "\n"@)
}

fn resolve_lines_exec(out: &mut Vec<Vec<char>>, nodes: &Vec<Node>, t: NodeType, word: &str, id: &str)
    ensures
        views(final(out)@) == views(old(out)@) + resolve_lines(nodes@, t, word@, id@),
{
    let ghost start = views(out@);
    let mut i: usize = 0;
    while i < nodes.len()
        invariant
            i <= nodes@.len(),
            views(out@) == start + resolve_lines(nodes@.take(i as int), t, word@, id@),
        decreases nodes@.len() - i,
    {
        proof {
            assert(nodes@.take(i + 1).drop_last() =~= nodes@.take(i as int));
            assert(nodes@.take(i + 1).last() == nodes@[i as int]);
        }
        let x = &nodes[i];
        if x.node_type == t && !x.resolved && !x.retracted && !x.incorporated {
            let sid = short_id_exec(x.node_id.as_str());
            let mut v = chars_of("    ");
            push_str(&mut v, word);
            push_str(&mut v, " ");
            append_chars(&mut v, sid.as_slice());
            push_str(&mut v, " — resolve with: resolve ");
            push_str(&mut v, id);
            push_str(&mut v, " ");
            append_chars(&mut v, sid.as_slice());
            push_chars_line(out, v);
            proof {
                assert(views(out@) =~= start + resolve_lines(nodes@.take(i + 1), t, word@, id@));
            }
        }
        i += 1;
    }
    proof {
        assert(nodes@.take(i as int) =~= nodes@);
    }
}

fn render_action_hint(s: &ThreadState, p: &Policy) -> (r: String)
    requires
        node_ids_cut_ok(s.nodes@),
    ensures
        r@ == action_hint_text(*p, *s),
{
    let ts = next_targets_exec(s);
    let mut lines: Vec<Vec<char>> = Vec::new();
    if ts.len() == 0 {
        push_chars_line(&mut lines, chars_of("  next: (no transitions available)"));
    } else {
        let parts = targets_with_blockers_exec(p, s, &ts, true);
        let mut v = chars_of("  next: ");
        let sep = chars_of(", ");
        let j = join_chars(&parts, sep.as_slice());
        append_chars(&mut v, j.as_slice());
        push_chars_line(&mut lines, v);
    }
    let ghost first = views(lines@);
    let no = open_count_exec(&s.nodes, NodeType::Objection);
    let na = open_count_exec(&s.nodes, NodeType::Action);
    if no > 0 || na > 0 {
        let mut items: Vec<Vec<char>> = Vec::new();
        if no > 0 {
            let mut a = fmt_usize(no);
            push_str(&mut a, " open objection(s)");
            push_chars_line(&mut items, a);
        }
        if na > 0 {
            let mut b = fmt_usize(na);
            push_str(&mut b, " open action(s)");
            push_chars_line(&mut items, b);
        }
        proof {
            let want = (if no > 0 {
                seq![decimal(no as nat) + " open objection(s)"@]
            } else {
                seq![]
            }) + (if na > 0 {
                seq![decimal(na as nat) + " open action(s)"@]
            } else {
                seq![]
            });
            assert(views(items@) =~= want);
        }
        let mut o = chars_of("  open: ");
        let sep = chars_of(", ");
        let j = join_chars(&items, sep.as_slice());
        append_chars(&mut o, j.as_slice());
        push_chars_line(&mut lines, o);
        resolve_lines_exec(&mut lines, &s.nodes, NodeType::Objection, "objection", s.id.as_str());
        resolve_lines_exec(&mut lines, &s.nodes, NodeType::Action, "action", s.id.as_str());
    }
    proof {
        let nodes = s.nodes@;
        let tsv = next_targets(*s);
        let open = if no == 0 && na == 0 {
            seq![]
        } else {
            let items = (if no > 0 {
                seq![decimal(no as nat) + " open objection(s)"@]
            } else {
                seq![]
            }) + (if na > 0 {
                seq![decimal(na as nat) + " open action(s)"@]
            } else {
                seq![]
            });
            seq!["  open: "@ + join(items, ", "@)] + resolve_lines(nodes, NodeType::Objection, "objection"@, s.id@)
                + resolve_lines(nodes, NodeType::Action, "action"@, s.id@)
        };
        assert(views(lines@) =~= first + open);
        let fl = if tsv.len() == 0 {
            "  next: (no transitions available)"@
        } else {
            "  next: "@ + join(targets_with_blockers(*p, *s, tsv, true), ", "@)
        };
        assert(first =~= seq![fl]);
    }
    join_to_string(&lines, "\n")
}


// ---------------------------------------------------------------------------
// Mode: what next
// ---------------------------------------------------------------------------

/// `allowed` when `status` is listed, else `blocked`.
pub open spec fn allowed_word(list: Seq<Seq<char>>, status: Seq<char>) -> Seq<char> {
    if list.contains(status) {
        "allowed"@
    } else {
        "blocked"@
    }
}

/// The operation checks of the thread's category policy in its current
/// status: which node types may be added, whether body and node revision
/// and new evidence are allowed; a line only for what the policy lists.
pub open spec fn op_check_text(p: Policy, s: ThreadState) -> Seq<Seq<char>> {
    match category_policy_in(p.categories@, s.category@) {
        None => seq![],
        Some(cp) => (match node_types_in(cp.allowed_node_types@, s.status@) {
            None => seq![],
            Some(ts) => seq![
                if ts.len() == 0 {
                    "  node types: (none allowed)"@
                } else {
                    "  node types: "@ + join(Seq::new(ts.len(), |i: int| node_type_name(ts[i])), ", "@)
                },
            ],
        }) + (match cp.revise {
            None => seq![],
            Some(rv) => (match rv.allow_body_revise {
                None => seq![],
                Some(l) => seq!["  body revise: "@ + allowed_word(strs(l@), s.status@)],
            }) + (match rv.allow_node_revise {
                None => seq![],
                Some(l) => seq!["  node revise: "@ + allowed_word(strs(l@), s.status@)],
            }),
        }) + (match cp.evidence {
            None => seq![],
            Some(ev) => match ev.allow_evidence {
                None => seq![],
                Some(l) => seq!["  evidence:    "@ + allowed_word(strs(l@), s.status@)],
            },
        }),
    }
}

fn contains_string(l: &Vec<String>, x: &str) -> (r: bool)
    ensures
        r == strs(l@).contains(x@),
{
    let mut i: usize = 0;
    while i < l.len()
        invariant
            i <= l@.len(),
            forall|j: int| 0 <= j < i ==> l@[j]@ != x@,
        decreases l@.len() - i,
    {
        if str_eq(l[i].as_str(), x) {
            proof {
                assert(strs(l@)[i as int] == x@);
            }
            return true;
        }
        i += 1;
    }
    proof {
        if strs(l@).contains(x@) {
            let k = choose|k: int| 0 <= k < strs(l@).len() && strs(l@)[k] == x@;
            assert(l@[k]@ == x@);
        }
    }
    false
}

fn allowed_line(prefix: &str, l: &Vec<String>, status: &str) -> (r: Vec<char>)
    ensures
        r@ == prefix@ + allowed_word(strs(l@), status@),
{
    let mut v = chars_of(prefix);
    if contains_string(l, status) {
        push_str(&mut v, "allowed");
    } else {
        push_str(&mut v, "blocked");
    }
    v
}

fn op_check_lines(s: &ThreadState, p: &Policy) -> (r: Vec<Vec<char>>)
    ensures
        views(r@) == op_check_text(*p, *s),
{
    let mut out: Vec<Vec<char>> = Vec::new();
    let cp = match p.category(s.category.as_str()) {
        Some(cp) => cp,
        None => {
            proof {
                assert(views(out@) =~= op_check_text(*p, *s));
            }
            return out;
        },
    };
    match allowed_node_types(cp, s.status.as_str()) {
        None => {},
        Some(ts) => {
            if ts.len() == 0 {
                push_chars_line(&mut out, chars_of("  node types: (none allowed)"));
            } else {
                let mut names: Vec<Vec<char>> = Vec::new();
                let mut i: usize = 0;
                while i < ts.len()
                    invariant
                        i <= ts@.len(),
                        views(names@) == Seq::new(ts@.len(), |k: int| node_type_name(ts@[k])).take(i as int),
                    decreases ts@.len() - i,
                {
                    let ghost before = views(names@);
                    names.push(chars_of(ts[i].as_str()));
                    proof {
                        assert(views(names@) =~= before.push(node_type_name(ts@[i as int])));
                        assert(Seq::new(ts@.len(), |k: int| node_type_name(ts@[k])).take(i + 1)
                            =~= Seq::new(ts@.len(), |k: int| node_type_name(ts@[k])).take(i as int).push(
                            node_type_name(ts@[i as int]),
                        ));
                    }
                    i += 1;
                }
                proof {
                    assert(Seq::new(ts@.len(), |k: int| node_type_name(ts@[k])).take(i as int) =~= Seq::new(
                        ts@.len(),
                        |k: int| node_type_name(ts@[k]),
                    ));
                }
                let mut v = chars_of("  node types: ");
                let sep = chars_of(", ");
                let j = join_chars(&names, sep.as_slice());
                append_chars(&mut v, j.as_slice());
                push_chars_line(&mut out, v);
            }
        },
    }
    let ghost after_types = views(out@);
    match &cp.revise {
        None => {},
        Some(rv) => {
            match &rv.allow_body_revise {
                None => {},
                Some(l) => push_chars_line(&mut out, allowed_line("  body revise: ", l, s.status.as_str())),
            }
            match &rv.allow_node_revise {
                None => {},
                Some(l) => push_chars_line(&mut out, allowed_line("  node revise: ", l, s.status.as_str())),
            }
        },
    }
    let ghost after_revise = views(out@);
    match &cp.evidence {
        None => {},
        Some(ev) => match &ev.allow_evidence {
            None => {},
            Some(l) => push_chars_line(&mut out, allowed_line("  evidence:    ", l, s.status.as_str())),
        },
    }
    proof {
        assert(views(out@) =~= op_check_text(*p, *s));
    }
    out
}

/// The guard-check lines of one next status: `PASS`, or each failing
/// rule with its reason.
pub open spec fn guard_check_one(p: Policy, s: ThreadState, t: Seq<char>) -> Seq<Seq<char>> {
    let v = violations_of(guard_rules(p, s, s.status@, t), s);
    if v.len() == 0 {
        seq!["guard check ("@ + s.status@ + " -> "@ + t + "): PASS"@]
    } else {
        seq!["guard check ("@ + s.status@ + " -> "@ + t + "):"@] + Seq::new(
            v.len(),
            |i: int| "  [FAIL] "@ + v[i].0 + " -- "@ + v[i].1,
        )
    }
}

/// The guard-check lines of each next status, in order.
pub open spec fn guard_check_lines(p: Policy, s: ThreadState, ts: Seq<Seq<char>>) -> Seq<Seq<char>>
    decreases ts.len(),
{
    if ts.len() == 0 {
        seq![]
    } else {
        guard_check_lines(p, s, ts.drop_last()) + guard_check_one(p, s, ts.last())
    }
}

/// The lines of each lookahead entry: its path, each violation, a blank.
pub open spec fn lookahead_lines(la: Seq<(Seq<char>, Seq<char>, Seq<(Seq<char>, Seq<char>)>)>) -> Seq<Seq<char>>
    decreases la.len(),
{
    if la.len() == 0 {
        seq![]
    } else {
        let e = la.last();
        lookahead_lines(la.drop_last()) + seq!["lookahead ("@ + e.1 + "):"@] + Seq::new(
            e.2.len(),
            |i: int| "  ["@ + e.2[i].0 + "] "@ + e.2[i].1,
        ) + seq![Seq::<char>::empty()]
    }
}

/// `git forum show --what-next`: the next statuses, the guard check of
/// each, the lookahead `la`, the thread's counts, and the operation checks.
pub open spec fn what_next_text(
    p: Policy,
    s: ThreadState,
    la: Seq<(Seq<char>, Seq<char>, Seq<(Seq<char>, Seq<char>)>)>,
) -> Seq<char> {
    join(what_next_head(p, s) + lookahead_lines(la) + what_next_counts(s) + op_block(p, s), "\n"@)
}

fn guard_check_exec(out: &mut Vec<Vec<char>>, p: &Policy, s: &ThreadState, t: &str)
    ensures
        views(final(out)@) == views(old(out)@) + guard_check_one(*p, *s, t@),
{
    let ghost start = views(out@);
    let vs = check_guards(p, s, s.status.as_str(), t);
    let mut h = chars_of("guard check (");
    push_str(&mut h, s.status.as_str());
    push_str(&mut h, " -> ");
    push_str(&mut h, t);
    if vs.len() == 0 {
        push_str(&mut h, "): PASS");
        push_chars_line(out, h);
        proof {
            assert(violation_view(vs@).len() == 0);
            assert(views(out@) =~= start + guard_check_one(*p, *s, t@));
        }
        return;
    }
    push_str(&mut h, "):");
    push_chars_line(out, h);
    let ghost v = violation_view(vs@);
    let ghost head = views(out@);
    let mut i: usize = 0;
    while i < vs.len()
        invariant
            i <= vs@.len(),
            v == violation_view(vs@),
            views(out@) == head + Seq::new(v.len(), |k: int| "  [FAIL] "@ + v[k].0 + " -- "@ + v[k].1).take(i as int),
        decreases vs@.len() - i,
    {
        let mut l = chars_of("  [FAIL] ");
        push_str(&mut l, vs[i].rule.as_str());
        push_str(&mut l, " -- ");
        push_str(&mut l, vs[i].reason.as_str());
        push_chars_line(out, l);
        proof {
            assert(Seq::new(v.len(), |k: int| "  [FAIL] "@ + v[k].0 + " -- "@ + v[k].1).take(i + 1) =~= Seq::new(
                v.len(),
                |k: int| "  [FAIL] "@ + v[k].0 + " -- "@ + v[k].1,
            ).take(i as int).push(l@));
        }
        i += 1;
    }
    proof {
        assert(Seq::new(v.len(), |k: int| "  [FAIL] "@ + v[k].0 + " -- "@ + v[k].1).take(i as int) =~= Seq::new(
            v.len(),
            |k: int| "  [FAIL] "@ + v[k].0 + " -- "@ + v[k].1,
        ));
        assert(views(out@) =~= start + guard_check_one(*p, *s, t@));
    }
}

fn lookahead_lines_exec(out: &mut Vec<Vec<char>>, la: &Vec<LookaheadEntry>)
    ensures
        views(final(out)@) == views(old(out)@) + lookahead_lines(lookahead_view(la@)),
{
    let ghost start = views(out@);
    let mut i: usize = 0;
    while i < la.len()
        invariant
            i <= la@.len(),
            views(out@) == start + lookahead_lines(lookahead_view(la@).take(i as int)),
        decreases la@.len() - i,
    {
        proof {
            assert(lookahead_view(la@).take(i + 1).drop_last() =~= lookahead_view(la@).take(i as int));
        }
        let e = &la[i];
        let ghost before = views(out@);
        let mut h = chars_of("lookahead (");
        push_str(&mut h, e.path.as_str());
        push_str(&mut h, "):");
        push_chars_line(out, h);
        let ghost v = violation_view(e.violations@);
        let ghost head = views(out@);
        let mut k: usize = 0;
        while k < e.violations.len()
            invariant
                k <= e.violations@.len(),
                v == violation_view(e.violations@),
                views(out@) == head + Seq::new(v.len(), |j: int| "  ["@ + v[j].0 + "] "@ + v[j].1).take(k as int),
            decreases e.violations@.len() - k,
        {
            let mut l = chars_of("  [");
            push_str(&mut l, e.violations[k].rule.as_str());
            push_str(&mut l, "] ");
            push_str(&mut l, e.violations[k].reason.as_str());
            push_chars_line(out, l);
            proof {
                assert(Seq::new(v.len(), |j: int| "  ["@ + v[j].0 + "] "@ + v[j].1).take(k + 1) =~= Seq::new(
                    v.len(),
                    |j: int| "  ["@ + v[j].0 + "] "@ + v[j].1,
                ).take(k as int).push(l@));
            }
            k += 1;
        }
        push_chars_line(out, Vec::new());
        proof {
            assert(Seq::new(v.len(), |j: int| "  ["@ + v[j].0 + "] "@ + v[j].1).take(k as int) =~= Seq::new(
                v.len(),
                |j: int| "  ["@ + v[j].0 + "] "@ + v[j].1,
            ));
            assert(lookahead_view(la@).take(i + 1).last() == lookahead_view(la@)[i as int]);
            assert(views(out@) =~= start + lookahead_lines(lookahead_view(la@).take(i + 1)));
        }
        i += 1;
    }
    proof {
        assert(lookahead_view(la@).take(i as int) =~= lookahead_view(la@));
    }
}

fn counts_line(prefix: &str, n: usize) -> (r: Vec<char>)
    ensures
        r@ == prefix@ + decimal(n as nat),
{
    let mut v = chars_of(prefix);
    push_usize(&mut v, n);
    v
}

/// The start of the what-next view: the thread, its next statuses and
/// their guard checks.
pub open spec fn what_next_head(p: Policy, s: ThreadState) -> Seq<Seq<char>> {
    let ts = next_targets(s);
    seq![
        s.id@ + " ("@ + s.status@ + ")"@,
        Seq::<char>::empty(),
        if ts.len() == 0 {
            "valid transitions: (none)"@
        } else {
            "valid transitions: "@ + join(ts, ", "@)
        },
        Seq::<char>::empty(),
    ] + guard_check_lines(p, s, ts) + (if ts.len() > 0 {
        seq![Seq::<char>::empty()]
    } else {
        seq![]
    })
}

fn what_next_head_exec(s: &ThreadState, p: &Policy) -> (r: Vec<Vec<char>>)
    ensures
        views(r@) == what_next_head(*p, *s),
{
    let mut lines: Vec<Vec<char>> = Vec::new();
    let mut h = chars_of(s.id.as_str());
    push_str(&mut h, " (");
    push_str(&mut h, s.status.as_str());
    push_str(&mut h, ")");
    push_chars_line(&mut lines, h);
    push_chars_line(&mut lines, Vec::new());
    let ts = next_targets_exec(s);
    if ts.len() == 0 {
        push_chars_line(&mut lines, chars_of("valid transitions: (none)"));
    } else {
        let mut names: Vec<Vec<char>> = Vec::new();
        let mut i: usize = 0;
        while i < ts.len()
            invariant
                i <= ts@.len(),
                views(names@) == str_views(ts@).take(i as int),
            decreases ts@.len() - i,
        {
            let ghost before = views(names@);
            names.push(chars_of(ts[i]));
            proof {
                assert(views(names@) =~= before.push(ts@[i as int]@));
                assert(str_views(ts@).take(i + 1) =~= str_views(ts@).take(i as int).push(ts@[i as int]@));
            }
            i += 1;
        }
        proof {
            assert(str_views(ts@).take(i as int) =~= str_views(ts@));
        }
        let mut v = chars_of("valid transitions: ");
        let sep = chars_of(", ");
        let j = join_chars(&names, sep.as_slice());
        append_chars(&mut v, j.as_slice());
        push_chars_line(&mut lines, v);
    }
    push_chars_line(&mut lines, Vec::new());
    let ghost top = views(lines@);
    let ghost tsv = str_views(ts@);
    let mut i: usize = 0;
    while i < ts.len()
        invariant
            i <= ts@.len(),
            tsv == str_views(ts@),
            views(lines@) == top + guard_check_lines(*p, *s, tsv.take(i as int)),
        decreases ts@.len() - i,
    {
        guard_check_exec(&mut lines, p, s, ts[i]);
        proof {
            assert(tsv.take(i + 1).drop_last() =~= tsv.take(i as int));
            assert(tsv.take(i + 1).last() == ts@[i as int]@);
        }
        i += 1;
    }
    proof {
        assert(tsv.take(i as int) =~= tsv);
    }
    if ts.len() > 0 {
        push_chars_line(&mut lines, Vec::new());
    }
    proof {
        assert(views(lines@) =~= what_next_head(*p, *s));
    }
    lines
}

/// The counts of the what-next view.
pub open spec fn what_next_counts(s: ThreadState) -> Seq<Seq<char>> {
    let nodes = s.nodes@;
    seq![
        "open objections: "@ + decimal(open_count(nodes, NodeType::Objection)),
        "open actions:    "@ + decimal(open_count(nodes, NodeType::Action)),
        "nodes:           "@ + decimal(nodes.len()),
        "evidence:        "@ + decimal(s.evidence_items@.len()),
        "links:           "@ + decimal(s.links@.len()),
        "has summary:     "@ + if latest_summary(nodes) is Some {
            "yes"@
        } else {
            "no"@
        },
        Seq::<char>::empty(),
    ]
}

fn what_next_counts_exec(out: &mut Vec<Vec<char>>, s: &ThreadState)
    ensures
        views(final(out)@) == views(old(out)@) + what_next_counts(*s),
{
    let ghost start = views(out@);
    push_chars_line(out, counts_line("open objections: ", open_count_exec(&s.nodes, NodeType::Objection)));
    push_chars_line(out, counts_line("open actions:    ", open_count_exec(&s.nodes, NodeType::Action)));
    push_chars_line(out, counts_line("nodes:           ", s.nodes.len()));
    push_chars_line(out, counts_line("evidence:        ", s.evidence_items.len()));
    push_chars_line(out, counts_line("links:           ", s.links.len()));
    let mut hs = chars_of("has summary:     ");
    match latest_summary_exec(&s.nodes) {
        Some(_) => push_str(&mut hs, "yes"),
        None => push_str(&mut hs, "no"),
    }
    push_chars_line(out, hs);
    push_chars_line(out, Vec::new());
    proof {
        assert(views(out@) =~= start + what_next_counts(*s));
    }
}

/// The operation-check block: a heading, the checks and a blank; nothing
/// when there are no checks.
pub open spec fn op_block(p: Policy, s: ThreadState) -> Seq<Seq<char>> {
    let op = op_check_text(p, s);
    if op.len() > 0 {
        seq!["operation checks (state: "@ + s.status@ + "):"@] + op + seq![Seq::<char>::empty()]
    } else {
        seq![]
    }
}

fn op_block_exec(out: &mut Vec<Vec<char>>, s: &ThreadState, p: &Policy)
    ensures
        views(final(out)@) == views(old(out)@) + op_block(*p, *s),
{
    let ghost start = views(out@);
    let op = op_check_lines(s, p);
    if op.len() > 0 {
        let mut oh = chars_of("operation checks (state: ");
        push_str(&mut oh, s.status.as_str());
        push_str(&mut oh, "):");
        push_chars_line(out, oh);
        let ghost before_op = views(out@);
        let mut k: usize = 0;
        while k < op.len()
            invariant
                k <= op@.len(),
                views(out@) == before_op + views(op@).take(k as int),
            decreases op@.len() - k,
        {
            push_chars_line(out, op[k].clone());
            proof {
                assert(views(op@).take(k + 1) =~= views(op@).take(k as int).push(op@[k as int]@));
            }
            k += 1;
        }
        proof {
            assert(views(op@).take(k as int) =~= views(op@));
        }
        push_chars_line(out, Vec::new());
    }
    proof {
        assert(views(out@) =~= start + op_block(*p, *s));
    }
}

fn render_what_next_block(s: &ThreadState, p: &Policy) -> (r: String)
    ensures
        exists|la: Seq<(Seq<char>, Seq<char>, Seq<(Seq<char>, Seq<char>)>)>|
            lookahead_spec(*p, *s, la) && r@ == what_next_text(*p, *s, la),
{
    let mut lines = what_next_head_exec(s, p);
    let la = build_lookahead(s, p);
    lookahead_lines_exec(&mut lines, &la);
    what_next_counts_exec(&mut lines, s);
    op_block_exec(&mut lines, s, p);
    proof {
        let lav = lookahead_view(la@);
        assert(views(lines@) =~= what_next_head(*p, *s) + lookahead_lines(lav) + what_next_counts(*s) + op_block(*p, *s));
        assert(lookahead_spec(*p, *s, lav));
    }
    join_to_string(&lines, "\n")
}


// ---------------------------------------------------------------------------
// Mode: full — the body of the thread
// ---------------------------------------------------------------------------

/// `size / 1024` in tenths, a tie rounded to the even tenth.
pub open spec fn kb_tenths(size: nat) -> nat {
    let q = (size * 10) / 1024;
    let rem = (size * 10) % 1024;
    if rem > 512 || (rem == 512 && q % 2 == 1) {
        q + 1
    } else {
        q
    }
}

/// A byte count for people: `N B` under 1024, else kilobytes with one
/// decimal (`1.5 KB`).
pub open spec fn size_text(size: nat) -> Seq<char> {
    if size >= 1024 {
        decimal(kb_tenths(size) / 10) + "."@ + decimal(kb_tenths(size) % 10) + " KB"@
    } else {
        decimal(size) + " B"@
    }
}

/// A byte count for people (see [`size_text`]).
pub fn size_summary(size: usize) -> (r: String)
    ensures
        r@ == size_text(size as nat),
{
    if size >= 1024 {
        let x: u128 = (size as u128) * 10;
        let q: u128 = x / 1024;
        let rem: u128 = x % 1024;
        let t: u128 = if rem > 512 || (rem == 512 && q % 2 == 1) {
            q + 1
        } else {
            q
        };
        proof {
            assert(t == kb_tenths(size as nat));
        }
        let mut v = crate::text::fmt_u128(t / 10);
        push_str(&mut v, ".");
        let d = crate::text::fmt_u128(t % 10);
        append_chars(&mut v, d.as_slice());
        push_str(&mut v, " KB");
        string_of(v.as_slice())
    } else {
        let mut v = fmt_usize(size);
        push_str(&mut v, " B");
        string_of(v.as_slice())
    }
}

/// The lines of a body; an empty body gives one empty line.
pub open spec fn body_lines(body: Seq<char>) -> Seq<Seq<char>> {
    lines(body) + if body.len() == 0 {
        seq![Seq::<char>::empty()]
    } else {
        seq![]
    }
}

/// A line that a compact body keeps: not blank and not a heading.
pub open spec fn compact_keeps(l: Seq<char>) -> bool {
    trim(l).len() > 0 && trim(l)[0] != '#'
}

pub open spec fn kept_lines(ls: Seq<Seq<char>>) -> Seq<Seq<char>>
    decreases ls.len(),
{
    if ls.len() == 0 {
        seq![]
    } else {
        let r = kept_lines(ls.drop_last());
        if compact_keeps(ls.last()) {
            r.push(ls.last())
        } else {
            r
        }
    }
}

/// A compact body: its first five kept lines, and when there are more, a
/// line with the body's size and revision count.
pub open spec fn compact_body(s: ThreadState, body: Seq<char>) -> Seq<Seq<char>> {
    let kept = kept_lines(lines(body));
    kept.take(if kept.len() < 5 { kept.len() as int } else { 5 }) + if kept.len() > 5 {
        seq![
            "... ("@ + size_text(utf8_len(body) as nat) + (if s.body_revision_count > 0 {
                ", "@ + decimal(s.body_revision_count as nat) + " revision(s)"@
            } else {
                Seq::<char>::empty()
            }) + " — use 'show "@ + s.id@ + "' for full body)"@,
        ]
    } else {
        seq![]
    }
}

pub open spec fn thread_body(s: ThreadState, body: Seq<char>, compact: bool) -> Seq<Seq<char>> {
    if compact {
        compact_body(s, body)
    } else {
        body_lines(body)
    }
}

fn body_lines_exec(out: &mut Vec<Vec<char>>, body: &str)
    ensures
        views(final(out)@) == views(old(out)@) + body_lines(body@),
{
    let ghost start = views(out@);
    let cs = chars_of(body);
    let ls = lines_of(cs.as_slice());
    let mut i: usize = 0;
    while i < ls.len()
        invariant
            i <= ls@.len(),
            views(ls@) == lines(body@),
            views(out@) == start + views(ls@).take(i as int),
        decreases ls@.len() - i,
    {
        push_chars_line(out, ls[i].clone());
        proof {
            assert(views(ls@).take(i + 1) =~= views(ls@).take(i as int).push(ls@[i as int]@));
        }
        i += 1;
    }
    proof {
        assert(views(ls@).take(i as int) =~= views(ls@));
    }
    if cs.len() == 0 {
        push_chars_line(out, Vec::new());
    }
    proof {
        assert(views(out@) =~= start + body_lines(body@));
    }
}

fn compact_body_exec(out: &mut Vec<Vec<char>>, s: &ThreadState, body: &str)
    ensures
        views(final(out)@) == views(old(out)@) + compact_body(*s, body@),
{
    let ghost start = views(out@);
    let cs = chars_of(body);
    let ls = lines_of(cs.as_slice());
    let mut kept: Vec<Vec<char>> = Vec::new();
    let mut i: usize = 0;
    while i < ls.len()
        invariant
            i <= ls@.len(),
            views(ls@) == lines(body@),
            views(kept@) == kept_lines(views(ls@).take(i as int)),
        decreases ls@.len() - i,
    {
        proof {
            assert(views(ls@).take(i + 1).drop_last() =~= views(ls@).take(i as int));
            assert(views(ls@).take(i + 1).last() == ls@[i as int]@);
        }
        let t = trim_chars(ls[i].as_slice());
        if t.len() > 0 && t[0] != '#' {
            push_chars_line(&mut kept, ls[i].clone());
        }
        i += 1;
    }
    proof {
        assert(views(ls@).take(i as int) =~= views(ls@));
    }
    let shown = if kept.len() < 5 { kept.len() } else { 5 };
    let mut k: usize = 0;
    while k < shown
        invariant
            k <= shown,
            shown <= kept@.len(),
            views(out@) == start + views(kept@).take(k as int),
        decreases shown - k,
    {
        push_chars_line(out, kept[k].clone());
        proof {
            assert(views(kept@).take(k + 1) =~= views(kept@).take(k as int).push(kept@[k as int]@));
        }
        k += 1;
    }
    proof {
        assert(views(kept@) == kept_lines(lines(body@)));
        assert(views(out@) == start + kept_lines(lines(body@)).take(
            if kept_lines(lines(body@)).len() < 5 { kept_lines(lines(body@)).len() as int } else { 5 },
        ));
    }
    let ghost shown_part = views(out@);
    if kept.len() > 5 {
        let mut v = chars_of("... (");
        let sz = size_summary(body.len());
        push_str(&mut v, sz.as_str());
        if s.body_revision_count > 0 {
            push_str(&mut v, ", ");
            push_usize(&mut v, s.body_revision_count);
            push_str(&mut v, " revision(s)");
        }
        push_str(&mut v, " — use 'show ");
        push_str(&mut v, s.id.as_str());
        push_str(&mut v, "' for full body)");
        proof {
            assert(v@ =~= "... ("@ + size_text(utf8_len(body@) as nat) + (if s.body_revision_count > 0 {
                ", "@ + decimal(s.body_revision_count as nat) + " revision(s)"@
            } else {
                Seq::<char>::empty()
            }) + " — use 'show "@ + s.id@ + "' for full body)"@);
        }
        push_chars_line(out, v);
    }
    proof {
        assert(views(out@) =~= start + compact_body(*s, body@));
    }
}

/// An instant as `%Y-%m-%dT%H:%M:%SZ` (`-` when chrono cannot represent
/// it).
pub open spec fn iso_text(t: Timestamp) -> Seq<char> {
    match timestamp_text(t.secs, t.nanos, "%Y-%m-%dT%H:%M:%SZ"@) {
        Some(x) => x,
        None => "-"@,
    }
}

fn iso_exec(t: Timestamp) -> (r: Vec<char>)
    ensures
        r@ == iso_text(t),
{
    match format_timestamp(t, "%Y-%m-%dT%H:%M:%SZ") {
        Some(x) => chars_of(x.as_str()),
        None => chars_of("-"),
    }
}

/// The `**next:**` line: the next statuses with the rules that block them;
/// nothing when there are none.
pub open spec fn next_states_line(p: Policy, s: ThreadState) -> Seq<Seq<char>> {
    let ts = next_targets(s);
    if ts.len() == 0 {
        seq![]
    } else {
        seq!["**next:**     "@ + join(targets_with_blockers(p, s, ts, false), ", "@)]
    }
}

/// The top of the full view: title, lifecycle, tags and status.
pub open spec fn header_top(s: ThreadState) -> Seq<Seq<char>> {
    let tags = strs(s.tags@);
    seq![
        "## "@ + s.id@ + " "@ + s.title@,
        Seq::<char>::empty(),
        "**lifecycle:** "@ + lifecycle_name(lifecycle_for_category(s.category@, tags)),
    ] + (if tags.len() > 0 {
        seq!["**tags:**      "@ + join(tags, ", "@)]
    } else {
        seq![]
    }) + seq!["**status:**    "@ + s.status@]
}

/// With a policy: the next statuses and, unless compact, the state
/// diagram.
pub open spec fn header_policy(s: ThreadState, compact: bool, policy: Option<Policy>) -> Seq<Seq<char>> {
    match policy {
        Some(p) => next_states_line(p, s) + if !compact {
            seq!["transitions:"@] + state_diagram(s.category@, s.status@)
        } else {
            seq![]
        },
        None => seq![],
    }
}

/// Creation, author and branch.
pub open spec fn header_meta(s: ThreadState) -> Seq<Seq<char>> {
    seq!["**created:**   "@ + iso_text(s.created_at), "**by:**        "@ + s.created_by@] + match s.branch {
        Some(b) => seq!["**branch:**    "@ + b@],
        None => seq![],
    }
}

/// The body under a rule, when the thread has one.
pub open spec fn header_body(s: ThreadState, compact: bool) -> Seq<Seq<char>> {
    match s.body {
        Some(b) => seq![Seq::<char>::empty(), "---"@, Seq::<char>::empty()] + thread_body(s, b@, compact),
        None => seq![],
    }
}

/// The header of the full view: title, lifecycle, tags, status, (with a
/// policy) the next statuses and the state diagram, creation, branch and
/// the body.
pub open spec fn header_lines(s: ThreadState, compact: bool, policy: Option<Policy>) -> Seq<Seq<char>> {
    header_top(s) + header_policy(s, compact, policy) + header_meta(s) + header_body(s, compact) + seq![
        Seq::<char>::empty(),
    ]
}

fn push_strings(out: &mut Vec<Vec<char>>, v: &Vec<String>)
    ensures
        views(final(out)@) == views(old(out)@) + strs(v@),
{
    let ghost start = views(out@);
    let mut i: usize = 0;
    while i < v.len()
        invariant
            i <= v@.len(),
            views(out@) == start + strs(v@).take(i as int),
        decreases v@.len() - i,
    {
        push_chars_line(out, chars_of(v[i].as_str()));
        proof {
            assert(strs(v@).take(i + 1) =~= strs(v@).take(i as int).push(v@[i as int]@));
        }
        i += 1;
    }
    proof {
        assert(strs(v@).take(i as int) =~= strs(v@));
    }
}

fn header_top_exec(s: &ThreadState) -> (r: Vec<Vec<char>>)
    ensures
        views(r@) == header_top(*s),
{
    let mut out: Vec<Vec<char>> = Vec::new();
    let mut h = chars_of("## ");
    push_str(&mut h, s.id.as_str());
    push_str(&mut h, " ");
    push_str(&mut h, s.title.as_str());
    push_chars_line(&mut out, h);
    push_chars_line(&mut out, Vec::new());
    let mut l = chars_of("**lifecycle:** ");
    push_str(&mut l, lifecycle_label_for(s.category.as_str(), s.tags.as_slice()));
    push_chars_line(&mut out, l);
    if s.tags.len() > 0 {
        let mut t = chars_of("**tags:**      ");
        let parts = crate::text::from_strings(s.tags.as_slice());
        let sep = chars_of(", ");
        let j = join_chars(&parts, sep.as_slice());
        append_chars(&mut t, j.as_slice());
        push_chars_line(&mut out, t);
    }
    let mut st = chars_of("**status:**    ");
    push_str(&mut st, s.status.as_str());
    push_chars_line(&mut out, st);
    proof {
        assert(views(out@) =~= header_top(*s));
    }
    out
}

fn header_policy_exec(out: &mut Vec<Vec<char>>, s: &ThreadState, compact: bool, policy: &Option<Policy>)
    ensures
        views(final(out)@) == views(old(out)@) + header_policy(*s, compact, *policy),
{
    let ghost start = views(out@);
    match policy {
        Some(p) => {
            let ts = next_targets_exec(s);
            if ts.len() > 0 {
                let parts = targets_with_blockers_exec(p, s, &ts, false);
                let mut v = chars_of("**next:**     ");
                let sep = chars_of(", ");
                let j = join_chars(&parts, sep.as_slice());
                append_chars(&mut v, j.as_slice());
                push_chars_line(out, v);
            }
            let ghost mid = views(out@);
            assert(mid == start + next_states_line(*p, *s));
            if !compact {
                push_chars_line(out, chars_of("transitions:"));
                let d = render_state_diagram(s.category.as_str(), s.status.as_str());
                push_strings(out, &d);
            }
        },
        None => {},
    }
    proof {
        assert(views(out@) =~= start + header_policy(*s, compact, *policy));
    }
}

fn header_meta_exec(out: &mut Vec<Vec<char>>, s: &ThreadState)
    ensures
        views(final(out)@) == views(old(out)@) + header_meta(*s),
{
    let ghost start = views(out@);
    let mut c = chars_of("**created:**   ");
    let ct = iso_exec(s.created_at);
    append_chars(&mut c, ct.as_slice());
    push_chars_line(out, c);
    let mut by = chars_of("**by:**        ");
    push_str(&mut by, s.created_by.as_str());
    push_chars_line(out, by);
    match &s.branch {
        Some(b) => {
            let mut bl = chars_of("**branch:**    ");
            push_str(&mut bl, b.as_str());
            push_chars_line(out, bl);
        },
        None => {},
    }
    proof {
        assert(views(out@) =~= start + header_meta(*s));
    }
}

fn header_body_exec(out: &mut Vec<Vec<char>>, s: &ThreadState, compact: bool)
    ensures
        views(final(out)@) == views(old(out)@) + header_body(*s, compact),
{
    let ghost start = views(out@);
    match &s.body {
        Some(b) => {
            push_chars_line(out, Vec::new());
            push_chars_line(out, chars_of("---"));
            push_chars_line(out, Vec::new());
            if compact {
                compact_body_exec(out, s, b.as_str());
            } else {
                body_lines_exec(out, b.as_str());
            }
        },
        None => {},
    }
    proof {
        assert(views(out@) =~= start + header_body(*s, compact));
    }
}

fn header_lines_exec(s: &ThreadState, compact: bool, policy: &Option<Policy>) -> (r: Vec<Vec<char>>)
    ensures
        views(r@) == header_lines(*s, compact, *policy),
{
    let mut out = header_top_exec(s);
    header_policy_exec(&mut out, s, compact, policy);
    header_meta_exec(&mut out, s);
    header_body_exec(&mut out, s, compact);
    push_chars_line(&mut out, Vec::new());
    out
}


// ---------------------------------------------------------------------------
// Conversations: each root node with its replies, breadth-first
// ---------------------------------------------------------------------------

/// Some node has ID `id`.
pub open spec fn has_node_id(nodes: Seq<Node>, id: Seq<char>) -> bool {
    exists|j: int| 0 <= j < nodes.len() && (#[trigger] nodes[j]).node_id@ == id
}

/// `n` replies to a node of the thread.
pub open spec fn replies_in_thread(nodes: Seq<Node>, n: Node) -> bool {
    match n.reply_to {
        Some(p) => has_node_id(nodes, p@),
        None => false,
    }
}

/// Some node with ID `id` replies to a node of the thread, so no
/// conversation starts at that ID.
pub open spec fn is_reply_id(nodes: Seq<Node>, id: Seq<char>) -> bool {
    exists|j: int| 0 <= j < nodes.len() && (#[trigger] nodes[j]).node_id@ == id && replies_in_thread(nodes, nodes[j])
}

/// The nodes that reply to `id`, in order.
pub open spec fn replies_to(nodes: Seq<Node>, id: Seq<char>) -> Seq<Node>
    decreases nodes.len(),
{
    if nodes.len() == 0 {
        seq![]
    } else {
        let r = replies_to(nodes.drop_last(), id);
        if opt_view(nodes.last().reply_to) == Some(id) {
            r.push(nodes.last())
        } else {
            r
        }
    }
}

/// A chain grown breadth-first: from position `qi` on, the replies of each
/// node are appended to the chain, for at most `fuel` nodes.
pub open spec fn grow(nodes: Seq<Node>, chain: Seq<Node>, qi: nat, fuel: nat) -> Seq<Node>
    decreases fuel,
{
    if fuel == 0 || qi >= chain.len() {
        chain
    } else {
        grow(nodes, chain + replies_to(nodes, chain[qi as int].node_id@), qi + 1, (fuel - 1) as nat)
    }
}

/// The conversation started by `root`: the root, then its replies level by
/// level, walked for at most as many nodes as the thread has.
pub open spec fn conversation(nodes: Seq<Node>, root: Node) -> Seq<Node> {
    grow(nodes, seq![root], 0, nodes.len())
}

pub open spec fn conversations_upto(nodes: Seq<Node>, n: nat) -> Seq<Seq<Node>>
    decreases n,
{
    if n == 0 {
        seq![]
    } else {
        let r = conversations_upto(nodes, (n - 1) as nat);
        let x = nodes[n - 1];
        if is_reply_id(nodes, x.node_id@) {
            r
        } else {
            r.push(conversation(nodes, x))
        }
    }
}

/// One conversation per node that replies to no node of the thread, in
/// node order.
pub open spec fn conversations(nodes: Seq<Node>) -> Seq<Seq<Node>> {
    conversations_upto(nodes, nodes.len())
}

pub proof fn lemma_grow_len(nodes: Seq<Node>, chain: Seq<Node>, qi: nat, fuel: nat)
    ensures
        grow(nodes, chain, qi, fuel).len() >= chain.len(),
        chain.len() > 0 ==> grow(nodes, chain, qi, fuel)[0] == chain[0],
    decreases fuel,
{
    if !(fuel == 0 || qi >= chain.len()) {
        let next = chain + replies_to(nodes, chain[qi as int].node_id@);
        lemma_grow_len(nodes, next, qi + 1, (fuel - 1) as nat);
    }
}

/// The indices `ix` read as nodes.
pub open spec fn at_indices(nodes: Seq<Node>, ix: Seq<usize>) -> Seq<Node> {
    Seq::new(ix.len(), |k: int| nodes[ix[k] as int])
}

pub open spec fn indices_below(ix: Seq<usize>, n: nat) -> bool {
    forall|k: int| 0 <= k < ix.len() ==> (#[trigger] ix[k]) < n
}

fn has_node_id_exec(nodes: &Vec<Node>, id: &[char]) -> (r: bool)
    ensures
        r == has_node_id(nodes@, id@),
{
    let mut j: usize = 0;
    while j < nodes.len()
        invariant
            j <= nodes@.len(),
            forall|k: int| 0 <= k < j ==> (#[trigger] nodes@[k]).node_id@ != id@,
        decreases nodes@.len() - j,
    {
        let c = chars_of(nodes[j].node_id.as_str());
        if crate::text::chars_eq(c.as_slice(), id) {
            proof {
                assert(nodes@[j as int].node_id@ == id@);
            }
            return true;
        }
        j += 1;
    }
    false
}

fn is_reply_id_exec(nodes: &Vec<Node>, id: &[char]) -> (r: bool)
    ensures
        r == is_reply_id(nodes@, id@),
{
    let mut j: usize = 0;
    while j < nodes.len()
        invariant
            j <= nodes@.len(),
            forall|k: int| 0 <= k < j ==> !((#[trigger] nodes@[k]).node_id@ == id@ && replies_in_thread(nodes@, nodes@[k])),
        decreases nodes@.len() - j,
    {
        let c = chars_of(nodes[j].node_id.as_str());
        if crate::text::chars_eq(c.as_slice(), id) {
            match &nodes[j].reply_to {
                Some(p) => {
                    let pc = chars_of(p.as_str());
                    if has_node_id_exec(nodes, pc.as_slice()) {
                        proof {
                            assert(nodes@[j as int].node_id@ == id@ && replies_in_thread(nodes@, nodes@[j as int]));
                        }
                        return true;
                    }
                },
                None => {},
            }
        }
        j += 1;
    }
    false
}

fn replies_exec(nodes: &Vec<Node>, id: &[char]) -> (r: Vec<usize>)
    ensures
        at_indices(nodes@, r@) == replies_to(nodes@, id@),
        indices_below(r@, nodes@.len()),
{
    let mut out: Vec<usize> = Vec::new();
    let mut j: usize = 0;
    while j < nodes.len()
        invariant
            j <= nodes@.len(),
            at_indices(nodes@, out@) == replies_to(nodes@.take(j as int), id@),
            indices_below(out@, nodes@.len()),
        decreases nodes@.len() - j,
    {
        proof {
            assert(nodes@.take(j + 1).drop_last() =~= nodes@.take(j as int));
            assert(nodes@.take(j + 1).last() == nodes@[j as int]);
        }
        let hit = match &nodes[j].reply_to {
            Some(p) => {
                let pc = chars_of(p.as_str());
                crate::text::chars_eq(pc.as_slice(), id)
            },
            None => false,
        };
        if hit {
            let ghost before = at_indices(nodes@, out@);
            out.push(j);
            proof {
                assert(at_indices(nodes@, out@) =~= before.push(nodes@[j as int]));
            }
        }
        proof {
            assert(hit == (opt_view(nodes@[j as int].reply_to) == Some(id@)));
        }
        j += 1;
    }
    proof {
        assert(nodes@.take(j as int) =~= nodes@);
    }
    out
}

fn conversation_exec(nodes: &Vec<Node>, i: usize) -> (r: Vec<usize>)
    requires
        i < nodes@.len(),
    ensures
        at_indices(nodes@, r@) == conversation(nodes@, nodes@[i as int]),
        indices_below(r@, nodes@.len()),
{
    let mut chain: Vec<usize> = Vec::new();
    chain.push(i);
    let mut qi: usize = 0;
    let mut fuel: usize = nodes.len();
    proof {
        assert(at_indices(nodes@, chain@) =~= seq![nodes@[i as int]]);
    }
    while qi < chain.len() && fuel > 0
        invariant
            indices_below(chain@, nodes@.len()),
            grow(nodes@, at_indices(nodes@, chain@), qi as nat, fuel as nat) == conversation(nodes@, nodes@[i as int]),
        decreases fuel,
    {
        let ghost c = at_indices(nodes@, chain@);
        assert(c[qi as int] == nodes@[chain@[qi as int] as int]);
        let id = chars_of(nodes[chain[qi]].node_id.as_str());
        let rs = replies_exec(nodes, id.as_slice());
        let mut k: usize = 0;
        while k < rs.len()
            invariant
                k <= rs@.len(),
                indices_below(rs@, nodes@.len()),
                indices_below(chain@, nodes@.len()),
                at_indices(nodes@, chain@) == c + at_indices(nodes@, rs@).take(k as int),
            decreases rs@.len() - k,
        {
            let ghost before = at_indices(nodes@, chain@);
            chain.push(rs[k]);
            proof {
                assert(at_indices(nodes@, chain@) =~= before.push(nodes@[rs@[k as int] as int]));
                assert(at_indices(nodes@, rs@).take(k + 1) =~= at_indices(nodes@, rs@).take(k as int).push(
                    nodes@[rs@[k as int] as int],
                ));
            }
            k += 1;
        }
        proof {
            assert(at_indices(nodes@, rs@).take(k as int) =~= at_indices(nodes@, rs@));
        }
        qi += 1;
        fuel -= 1;
    }
    chain
}

/// The conversations of a thread, each as node indices (see
/// [`conversations`]).
pub(crate) fn build_conversations(nodes: &Vec<Node>) -> (r: Vec<Vec<usize>>)
    ensures
        r@.len() == conversations(nodes@).len(),
        forall|c: int| 0 <= c < r@.len() ==> at_indices(nodes@, (#[trigger] r@[c])@) == conversations(nodes@)[c]
            && indices_below(r@[c]@, nodes@.len()),
{
    let mut out: Vec<Vec<usize>> = Vec::new();
    let mut i: usize = 0;
    while i < nodes.len()
        invariant
            i <= nodes@.len(),
            out@.len() == conversations_upto(nodes@, i as nat).len(),
            forall|c: int| 0 <= c < out@.len() ==> at_indices(nodes@, (#[trigger] out@[c])@) == conversations_upto(
                nodes@,
                i as nat,
            )[c] && indices_below(out@[c]@, nodes@.len()),
        decreases nodes@.len() - i,
    {
        let id = chars_of(nodes[i].node_id.as_str());
        if !is_reply_id_exec(nodes, id.as_slice()) {
            let ch = conversation_exec(nodes, i);
            out.push(ch);
        }
        i += 1;
    }
    out
}


// ---------------------------------------------------------------------------
// Options of the thread views
// ---------------------------------------------------------------------------

/// One commit of a thread's snapshot history as the history reader gives
/// it: its table row and the paths it changed.
#[derive(Debug, Clone)]
pub struct SnapshotLogEntry {
    pub row: String,
    pub paths: Vec<String>,
}

/// Which block of the thread view to render.
#[derive(Debug, Clone, Copy, PartialEq, Eq, Structural, Default)]
pub enum ShowMode {
    /// `git forum show`.
    #[default]
    Full,
    /// `git forum status`: open items only.
    Status,
    /// `git forum show --what-next`: transitions, guards and checks.
    WhatNext,
    /// The hint printed after a state change.
    ActionHint,
}

/// What [`render_show`] and [`render_node_show`] render.
#[derive(Debug, Clone, Default)]
pub struct ShowOptions {
    /// Cut bodies and conversations to one-line previews.
    pub compact: bool,
    /// Leave out the timeline.
    pub no_timeline: bool,
    /// With a policy the full view shows the next statuses with their
    /// guards and the state diagram; the what-next and hint modes need it.
    pub policy: Option<Policy>,
    pub mode: ShowMode,
    /// The thread's snapshot history; without it the timeline is a
    /// placeholder.
    pub timeline_entries: Option<Vec<SnapshotLogEntry>>,
}

// ---------------------------------------------------------------------------
// Mode: full — the sections
// ---------------------------------------------------------------------------

/// A node that is open: neither resolved, retracted nor incorporated.
pub open spec fn node_is_open(n: Node) -> bool {
    !n.retracted && !n.incorporated && !n.resolved
}

/// A node folded into the body (and not retracted).
pub open spec fn node_is_incorporated(n: Node) -> bool {
    !n.retracted && n.incorporated
}

pub open spec fn incorporated_nodes(nodes: Seq<Node>) -> Seq<Node>
    decreases nodes.len(),
{
    if nodes.len() == 0 {
        seq![]
    } else {
        let r = incorporated_nodes(nodes.drop_last());
        if node_is_incorporated(nodes.last()) {
            r.push(nodes.last())
        } else {
            r
        }
    }
}

pub open spec fn open_nodes(nodes: Seq<Node>, t: NodeType) -> Seq<Node>
    decreases nodes.len(),
{
    if nodes.len() == 0 {
        seq![]
    } else {
        let r = open_nodes(nodes.drop_last(), t);
        if is_open_node(nodes.last(), t) {
            r.push(nodes.last())
        } else {
            r
        }
    }
}

/// A list block: `label: n`, the items, a blank; nothing without items.
pub open spec fn item_list(label: Seq<char>, items: Seq<Seq<char>>) -> Seq<Seq<char>> {
    if items.len() == 0 {
        seq![]
    } else {
        seq![label + ": "@ + decimal(items.len())] + items + seq![Seq::<char>::empty()]
    }
}

pub open spec fn incorporated_line(n: Node) -> Seq<char> {
    "  - "@ + short_node_id(n.node_id@) + " "@ + node_label(n) + " "@ + first_line(n.body@)
}

/// The first 8 bytes of an evidence ID, as characters.
pub open spec fn short_evidence(id: Seq<char>) -> Seq<char> {
    id.take(prefix_within(id, 8) as int)
}

pub open spec fn evidence_line(e: Evidence) -> Seq<char> {
    "  - "@ + short_evidence(e.evidence_id@) + "  "@ + evidence_kind_name(e.kind) + "  "@ + e.ref_target@
}

pub open spec fn link_line(l: ThreadLink) -> Seq<char> {
    "  - "@ + l.target_thread_id@ + "  "@ + l.rel@
}

/// Every evidence ID can be cut at 8 bytes on a character boundary.
pub open spec fn evidence_ids_cut_ok(evs: Seq<Evidence>) -> bool {
    forall|i: int|
        0 <= i < evs.len() ==> encode_utf8((#[trigger] evs[i]).evidence_id@).len() <= 8 || is_char_boundary(
            encode_utf8(evs[i].evidence_id@),
            8,
        )
}

/// The rows of a snapshot history.
pub open spec fn history_rows(es: Seq<SnapshotLogEntry>) -> Seq<Seq<char>> {
    Seq::new(es.len(), |i: int| es[i].row@)
}

/// The timeline block: with `compact` a count of commits, else the
/// history rows (a placeholder when no history was loaded).
pub open spec fn timeline_block(s: ThreadState, compact: bool, entries: Option<Vec<SnapshotLogEntry>>) -> Seq<
    Seq<char>,
> {
    seq!["---"@, Seq::<char>::empty()] + (if compact {
        seq![
            "**timeline:** "@ + decimal(
                match entries {
                    Some(es) => es@.len(),
                    None => 0,
                },
            ) + " commits (use 'log "@ + s.id@ + "' for full view)"@,
        ]
    } else {
        seq!["### timeline"@, Seq::<char>::empty()] + match entries {
            None => seq!["_(timeline unavailable; no snapshot ref loaded)_"@],
            Some(es) => history_rows(es@),
        }
    }) + seq![Seq::<char>::empty()]
}

pub open spec fn open_item_of(it: OpenItem, n: Node) -> bool {
    it.id_short@ == short_node_id(n.node_id@) && it.author@ == n.actor@ && it.body@ == n.body@ && it.kind
        == n.node_type
}

/// An open-items section built from the open nodes of type `t`.
pub open spec fn open_section_of(sec: OpenItemsSection, s: ThreadState, t: NodeType, compact: bool, with_reply: bool) -> bool {
    let ns = open_nodes(s.nodes@, t);
    &&& sec.thread_id@ == s.id@
    &&& sec.compact == compact
    &&& sec.with_reply == with_reply
    &&& sec.items@.len() == ns.len()
    &&& forall|k: int| 0 <= k < ns.len() ==> open_item_of(#[trigger] sec.items@[k], ns[k])
}

pub open spec fn conv_node_of(c: ConversationNode, n: Node) -> bool {
    &&& c.id_short@ == short_node_id(n.node_id@)
    &&& c.kind == n.node_type
    &&& c.label@ == node_label(n)
    &&& c.status_label@ == node_status_word(n)
    &&& c.author@ == n.actor@
    &&& c.body@ == n.body@
}

pub open spec fn chain_of(c: ConversationChain, ns: Seq<Node>) -> bool {
    &&& c.nodes@.len() == ns.len()
    &&& forall|k: int| 0 <= k < ns.len() ==> conv_node_of(#[trigger] c.nodes@[k], ns[k])
    &&& c.last_is_open == (ns.len() > 0 && node_is_open(ns.last()))
}

pub open spec fn incorporated_count(nodes: Seq<Node>) -> nat {
    incorporated_nodes(nodes).len()
}

/// The conversations section of a thread.
pub open spec fn conv_section_of(sec: ConversationsSection, s: ThreadState, compact: bool) -> bool {
    let cs = conversations(s.nodes@);
    &&& sec.thread_id@ == s.id@
    &&& sec.compact == compact
    &&& sec.incorporated_count == (if compact { incorporated_count(s.nodes@) } else { 0 })
    &&& sec.chains@.len() == cs.len()
    &&& forall|i: int| 0 <= i < cs.len() ==> chain_of(#[trigger] sec.chains@[i], cs[i])
}

/// A text section with these lines.
pub open spec fn text_part(lines: Seq<Seq<char>>) -> spec_fn(Section) -> bool {
    |sec: Section| sec matches Section::Text(ls) && strs(ls@) == lines
}

pub open spec fn objections_part(s: ThreadState, compact: bool) -> spec_fn(Section) -> bool {
    |sec: Section| sec matches Section::OpenObjections(x) && open_section_of(x, s, NodeType::Objection, compact, true)
}

pub open spec fn actions_part(s: ThreadState, compact: bool) -> spec_fn(Section) -> bool {
    |sec: Section| sec matches Section::OpenActions(x) && open_section_of(x, s, NodeType::Action, compact, false)
}

pub open spec fn conversations_part(s: ThreadState, compact: bool) -> spec_fn(Section) -> bool {
    |sec: Section| sec matches Section::Conversations(x) && conv_section_of(x, s, compact)
}

/// What each section of the full view is, in order: the header; unless
/// compact the body revision count and the incorporated nodes; the open
/// objections and actions; the latest summary; unless compact the
/// evidence; the links; the conversations; the timeline unless left out;
/// and, unless compact, a tip when items are open. Optional text blocks
/// only appear when they have content.
pub open spec fn full_parts(s: ThreadState, o: ShowOptions) -> Seq<spec_fn(Section) -> bool> {
    parts_head(s, o) + parts_items(s, o) + parts_tail(s, o)
}

/// The header, body revision count and incorporated nodes.
pub open spec fn parts_head(s: ThreadState, o: ShowOptions) -> Seq<spec_fn(Section) -> bool> {
    let c = o.compact;
    let nodes = s.nodes@;
    seq![text_part(header_lines(s, c, o.policy))] + (if !c && s.body_revision_count > 0 {
        seq![text_part(seq!["**body revisions:** "@ + decimal(s.body_revision_count as nat)])]
    } else {
        seq![]
    }) + (if !c && incorporated_nodes(nodes).len() > 0 {
        seq![
            text_part(
                item_list(
                    "incorporated nodes"@,
                    Seq::new(incorporated_nodes(nodes).len(), |i: int| incorporated_line(incorporated_nodes(nodes)[i])),
                ),
            ),
        ]
    } else {
        seq![]
    })
}

/// The open objections and actions, latest summary, evidence and links.
pub open spec fn parts_items(s: ThreadState, o: ShowOptions) -> Seq<spec_fn(Section) -> bool> {
    let c = o.compact;
    let nodes = s.nodes@;
    seq![objections_part(s, c), actions_part(s, c)] + (match latest_summary(nodes) {
        Some(b) => seq![text_part(seq!["**latest summary:**"@, "  "@ + b, Seq::<char>::empty()])],
        None => seq![],
    }) + (if !c && s.evidence_items@.len() > 0 {
        seq![
            text_part(
                item_list(
                    "evidence"@,
                    Seq::new(s.evidence_items@.len(), |i: int| evidence_line(s.evidence_items@[i])),
                ),
            ),
        ]
    } else {
        seq![]
    }) + (if s.links@.len() > 0 {
        seq![text_part(item_list("links"@, Seq::new(s.links@.len(), |i: int| link_line(s.links@[i]))))]
    } else {
        seq![]
    })
}

/// The conversations, timeline and tip.
pub open spec fn parts_tail(s: ThreadState, o: ShowOptions) -> Seq<spec_fn(Section) -> bool> {
    let c = o.compact;
    let nodes = s.nodes@;
    seq![conversations_part(s, c)] + (if !o.no_timeline {
        seq![text_part(timeline_block(s, c, o.timeline_entries))]
    } else {
        seq![]
    }) + (if !c && (open_count(nodes, NodeType::Objection) > 0 || open_count(nodes, NodeType::Action) > 0) {
        seq![
            text_part(
                seq![
                    "tip: run `git forum show "@ + s.id@ + " --what-next` for action guidance"@,
                    Seq::<char>::empty(),
                ],
            ),
        ]
    } else {
        seq![]
    })
}

/// Every part of `ps` asks for a text section.
pub open spec fn all_text_parts(ps: Seq<spec_fn(Section) -> bool>) -> bool {
    forall|m: int| 0 <= m < ps.len() ==> exists|ls: Seq<Seq<char>>| #[trigger] ps[m] == text_part(ls)
}

proof fn lemma_head_text(s: ThreadState, o: ShowOptions)
    ensures
        all_text_parts(parts_head(s, o)),
        parts_head(s, o)[0] == text_part(header_lines(s, o.compact, o.policy)),
        parts_head(s, o).len() >= 1,
{
    let ph = parts_head(s, o);
    assert forall|m: int| 0 <= m < ph.len() implies exists|ls: Seq<Seq<char>>| #[trigger] ph[m] == text_part(ls) by {
        let c = o.compact;
        let nodes = s.nodes@;
        let a: Seq<spec_fn(Section) -> bool> = seq![text_part(header_lines(s, c, o.policy))];
        let b: Seq<spec_fn(Section) -> bool> = if !c && s.body_revision_count > 0 {
            seq![text_part(seq!["**body revisions:** "@ + decimal(s.body_revision_count as nat)])]
        } else {
            seq![]
        };
        let d: Seq<spec_fn(Section) -> bool> = if !c && incorporated_nodes(nodes).len() > 0 {
            seq![
                text_part(
                    item_list(
                        "incorporated nodes"@,
                        Seq::new(incorporated_nodes(nodes).len(), |i: int| incorporated_line(incorporated_nodes(nodes)[i])),
                    ),
                ),
            ]
        } else {
            seq![]
        };
        assert(ph == a + b + d);
        if m == 0 {
            assert(ph[m] == a[0]);
        } else if m < 1 + b.len() {
            assert(ph[m] == b[m - 1]);
        } else {
            assert(ph[m] == d[m - 1 - b.len()]);
        }
    }
}

proof fn lemma_items_text(s: ThreadState, o: ShowOptions)
    ensures
        parts_items(s, o).len() >= 2,
        parts_items(s, o)[0] == objections_part(s, o.compact),
        parts_items(s, o)[1] == actions_part(s, o.compact),
        all_text_parts(parts_items(s, o).skip(2)),
{
    let c = o.compact;
    let nodes = s.nodes@;
    let pi = parts_items(s, o);
    let a: Seq<spec_fn(Section) -> bool> = match latest_summary(nodes) {
        Some(b) => seq![text_part(seq!["**latest summary:**"@, "  "@ + b, Seq::<char>::empty()])],
        None => seq![],
    };
    let b: Seq<spec_fn(Section) -> bool> = if !c && s.evidence_items@.len() > 0 {
        seq![
            text_part(
                item_list("evidence"@, Seq::new(s.evidence_items@.len(), |i: int| evidence_line(s.evidence_items@[i]))),
            ),
        ]
    } else {
        seq![]
    };
    let d: Seq<spec_fn(Section) -> bool> = if s.links@.len() > 0 {
        seq![text_part(item_list("links"@, Seq::new(s.links@.len(), |i: int| link_line(s.links@[i]))))]
    } else {
        seq![]
    };
    assert(pi == seq![objections_part(s, c), actions_part(s, c)] + a + b + d);
    let rest = pi.skip(2);
    assert(rest =~= a + b + d);
    assert forall|m: int| 0 <= m < rest.len() implies exists|ls: Seq<Seq<char>>| #[trigger] rest[m] == text_part(ls) by {
        if m < a.len() {
            assert(rest[m] == a[m]);
        } else if m < a.len() + b.len() {
            assert(rest[m] == b[m - a.len()]);
        } else {
            assert(rest[m] == d[m - a.len() - b.len()]);
        }
    }
}

proof fn lemma_tail_text(s: ThreadState, o: ShowOptions)
    ensures
        parts_tail(s, o)[0] == conversations_part(s, o.compact),
        parts_tail(s, o).len() >= 1,
        all_text_parts(parts_tail(s, o).skip(1)),
        !o.no_timeline ==> parts_tail(s, o).len() >= 2 && parts_tail(s, o)[1] == text_part(
            timeline_block(s, o.compact, o.timeline_entries),
        ),
        o.no_timeline && parts_tail(s, o).len() >= 2 ==> parts_tail(s, o)[1] == text_part(
            seq!["tip: run `git forum show "@ + s.id@ + " --what-next` for action guidance"@, Seq::<char>::empty()],
        ),
{
    let c = o.compact;
    let nodes = s.nodes@;
    let pt = parts_tail(s, o);
    let a: Seq<spec_fn(Section) -> bool> = if !o.no_timeline {
        seq![text_part(timeline_block(s, c, o.timeline_entries))]
    } else {
        seq![]
    };
    let tip = text_part(
        seq!["tip: run `git forum show "@ + s.id@ + " --what-next` for action guidance"@, Seq::<char>::empty()],
    );
    let b: Seq<spec_fn(Section) -> bool> = if !c && (open_count(nodes, NodeType::Objection) > 0 || open_count(
        nodes,
        NodeType::Action,
    ) > 0) {
        seq![tip]
    } else {
        seq![]
    };
    assert(pt == seq![conversations_part(s, c)] + a + b);
    let rest = pt.skip(1);
    assert(rest =~= a + b);
    assert forall|m: int| 0 <= m < rest.len() implies exists|ls: Seq<Seq<char>>| #[trigger] rest[m] == text_part(ls) by {
        if m < a.len() {
            assert(rest[m] == a[m]);
        } else {
            assert(rest[m] == b[m - a.len()]);
        }
    }
    if o.no_timeline && pt.len() >= 2 {
        assert(pt[1] == b[0]);
    }
}

/// The section at `i` is text whose first line is `---`.
pub open spec fn timeline_at(r: Seq<Section>, i: int) -> bool {
    0 <= i < r.len() && match r[i] {
        Section::Text(ls) => ls@.len() > 0 && ls@[0]@ == "---"@,
        _ => false,
    }
}

/// Law of [`render_full_sections`]: the full view opens with the header, whose first line is
/// `## <id> <title>`; it holds exactly one open-objections, one
/// open-actions and one conversations section, in that order (the first
/// two list the open objections and open actions one for one, in order,
/// see [`open_section_of`]), and every other section is text; the section right after the conversations is
/// the timeline, whose first line is `---`, exactly when the timeline is
/// not left out.
pub proof fn lemma_full_sections_order(s: ThreadState, o: ShowOptions, r: Seq<Section>)
    requires
        sections_meet(r, full_parts(s, o)),
    ensures
        r[0] matches Section::Text(ls) && ls@.len() > 0 && ls@[0]@ == "## "@ + s.id@ + " "@ + s.title@,
        exists|i: int, j: int, k: int|
            #![trigger r[i], r[j], r[k]]
            0 < i < j < k < r.len() && (objections_part(s, o.compact))(r[i]) && (actions_part(s, o.compact))(r[j])
                && (conversations_part(s, o.compact))(r[k]) && r[i] is OpenObjections && r[j] is OpenActions && r[k] is Conversations && (
            forall|m: int| 0 <= m < r.len() && m != i && m != j && m != k ==> #[trigger] r[m] is Text) && (!o.no_timeline
                <==> timeline_at(r, k + 1)),
{
    lemma_full_first(s, o, r);
    lemma_full_kinds(s, o, r);
    lemma_full_timeline(s, o, r);
    let i = parts_head(s, o).len() as int;
    let k = i + parts_items(s, o).len();
    assert(r[i] is OpenObjections && r[i + 1] is OpenActions && r[k] is Conversations);
}

proof fn lemma_full_first(s: ThreadState, o: ShowOptions, r: Seq<Section>)
    requires
        sections_meet(r, full_parts(s, o)),
    ensures
        r[0] matches Section::Text(ls) && ls@.len() > 0 && ls@[0]@ == "## "@ + s.id@ + " "@ + s.title@,
{
    lemma_head_text(s, o);
    let fp = full_parts(s, o);
    let ph = parts_head(s, o);
    assert(fp[0] == ph[0]);
    assert((fp[0])(r[0]));
    let h = header_lines(s, o.compact, o.policy);
    assert(h[0] == header_top(s)[0]);
    let ls = r[0]->Text_0;
    assert(strs(ls@) == h);
    assert(h.len() >= 3);
    assert(strs(ls@).len() == ls@.len());
    assert(strs(ls@)[0] == ls@[0]@);
}

proof fn lemma_full_kinds(s: ThreadState, o: ShowOptions, r: Seq<Section>)
    requires
        sections_meet(r, full_parts(s, o)),
    ensures
        ({
            let i = parts_head(s, o).len() as int;
            let k = i + parts_items(s, o).len();
            &&& 0 < i && i + 1 < k && k < r.len()
            &&& r[i] is OpenObjections && r[i + 1] is OpenActions && r[k] is Conversations
            &&& (objections_part(s, o.compact))(r[i]) && (actions_part(s, o.compact))(r[i + 1])
            &&& (conversations_part(s, o.compact))(r[k])
            &&& forall|m: int| 0 <= m < r.len() && m != i && m != i + 1 && m != k ==> #[trigger] r[m] is Text
        }),
{
    let ph = parts_head(s, o);
    let pi = parts_items(s, o);
    let pt = parts_tail(s, o);
    let fp = full_parts(s, o);
    lemma_head_text(s, o);
    lemma_items_text(s, o);
    lemma_tail_text(s, o);
    let i = ph.len() as int;
    let j = i + 1;
    let k = i + pi.len();
    assert(fp[i] == pi[0]);
    assert((fp[i])(r[i]));
    assert(fp[j] == pi[1]);
    assert((fp[j])(r[j]));
    assert(fp[k] == pt[0]);
    assert((fp[k])(r[k]));
    assert forall|m: int| 0 <= m < r.len() && m != i && m != j && m != k implies #[trigger] r[m] is Text by {
        assert((fp[m])(r[m]));
        if m < i {
            assert(fp[m] == ph[m]);
            let ls = choose|ls: Seq<Seq<char>>| #[trigger] ph[m] == text_part(ls);
        } else if m < k {
            assert(fp[m] == pi[m - i]);
            assert(pi.skip(2)[m - i - 2] == pi[m - i]);
            let ls = choose|ls: Seq<Seq<char>>| #[trigger] pi.skip(2)[m - i - 2] == text_part(ls);
        } else {
            assert(fp[m] == pt[m - k]);
            assert(pt.skip(1)[m - k - 1] == pt[m - k]);
            let ls = choose|ls: Seq<Seq<char>>| #[trigger] pt.skip(1)[m - k - 1] == text_part(ls);
        }
    }
}

proof fn lemma_full_timeline(s: ThreadState, o: ShowOptions, r: Seq<Section>)
    requires
        sections_meet(r, full_parts(s, o)),
    ensures
        !o.no_timeline <==> timeline_at(r, (parts_head(s, o).len() + parts_items(s, o).len() + 1) as int),
{
    let ph = parts_head(s, o);
    let pi = parts_items(s, o);
    let pt = parts_tail(s, o);
    let fp = full_parts(s, o);
    lemma_tail_text(s, o);
    let k = (ph.len() + pi.len()) as int;
    reveal_strlit("---");
    reveal_strlit("tip: run `git forum show ");
    if k + 1 < r.len() {
        assert(fp[k + 1] == pt[1]);
        assert((fp[k + 1])(r[k + 1]));
        let ls = r[k + 1]->Text_0;
        if !o.no_timeline {
            let tb = timeline_block(s, o.compact, o.timeline_entries);
            assert(tb[0] == "---"@);
            assert(strs(ls@) == tb);
            assert(strs(ls@).len() == ls@.len());
            assert(strs(ls@)[0] == ls@[0]@);
            assert(timeline_at(r, k + 1));
        } else {
            let t = "tip: run `git forum show "@ + s.id@ + " --what-next` for action guidance"@;
            assert(t[0] == 't');
            assert("---"@[0] == '-');
            assert(strs(ls@) == seq![t, Seq::<char>::empty()]);
            assert(strs(ls@).len() == ls@.len());
            assert(strs(ls@)[0] == ls@[0]@);
            assert(!timeline_at(r, k + 1));
        }
    } else {
        assert(pt.len() >= 2 ==> fp.len() > k + 1);
    }
}

/// The sections meet the parts, one for one.
pub open spec fn sections_meet(secs: Seq<Section>, parts: Seq<spec_fn(Section) -> bool>) -> bool {
    secs.len() == parts.len() && forall|i: int| 0 <= i < secs.len() ==> (#[trigger] parts[i])(secs[i])
}

fn text_section(lines: Vec<Vec<char>>) -> (r: Section)
    ensures
        (text_part(views(lines@)))(r),
{
    let v = crate::text::to_strings(&lines);
    Section::Text(v)
}

fn push_section(out: &mut Vec<Section>, sec: Section, Ghost(ps): Ghost<Seq<spec_fn(Section) -> bool>>, Ghost(p): Ghost<spec_fn(Section) -> bool>)
    requires
        sections_meet(old(out)@, ps),
        p(sec),
        all_rooted(old(out)@),
        sec matches Section::Conversations(x) ==> chains_rooted(x),
    ensures
        sections_meet(final(out)@, ps.push(p)),
        all_rooted(final(out)@),
{
    let ghost before = out@;
    out.push(sec);
    proof {
        assert forall|i: int| 0 <= i < out@.len() implies (#[trigger] ps.push(p)[i])(out@[i]) by {
            if i < ps.len() {
                assert(ps.push(p)[i] == ps[i]);
                assert(out@[i] == before[i]);
            }
        }
        assert forall|i: int| 0 <= i < out@.len() implies ((#[trigger] out@[i]) matches Section::Conversations(x)
            ==> chains_rooted(x)) by {
            if i < before.len() {
                assert(out@[i] == before[i]);
            }
        }
    }
}

fn open_items_section(s: &ThreadState, t: NodeType, compact: bool, with_reply: bool) -> (r: OpenItemsSection)
    ensures
        open_section_of(r, *s, t, compact, with_reply),
{
    let mut items: Vec<OpenItem> = Vec::new();
    let mut i: usize = 0;
    while i < s.nodes.len()
        invariant
            i <= s.nodes@.len(),
            items@.len() == open_nodes(s.nodes@.take(i as int), t).len(),
            forall|k: int| 0 <= k < items@.len() ==> open_item_of(#[trigger] items@[k], open_nodes(s.nodes@.take(i as int), t)[k]),
        decreases s.nodes@.len() - i,
    {
        proof {
            assert(s.nodes@.take(i + 1).drop_last() =~= s.nodes@.take(i as int));
            assert(s.nodes@.take(i + 1).last() == s.nodes@[i as int]);
        }
        let x = &s.nodes[i];
        if x.node_type == t && !x.resolved && !x.retracted && !x.incorporated {
            let sid = short_id_exec(x.node_id.as_str());
            items.push(OpenItem {
                id_short: string_of(sid.as_slice()),
                author: crate::text::string_from(x.actor.as_str()),
                body: crate::text::string_from(x.body.as_str()),
                kind: x.node_type,
            });
        }
        i += 1;
    }
    proof {
        assert(s.nodes@.take(i as int) =~= s.nodes@);
    }
    OpenItemsSection { thread_id: crate::text::string_from(s.id.as_str()), items, with_reply, compact }
}

fn conv_node_exec(n: &Node) -> (r: ConversationNode)
    ensures
        conv_node_of(r, *n),
{
    let sid = short_id_exec(n.node_id.as_str());
    ConversationNode {
        id_short: string_of(sid.as_slice()),
        kind: n.node_type,
        label: crate::text::string_from(n.node_type.as_str()),
        status_label: crate::text::string_from(node_status_exec(n)),
        author: crate::text::string_from(n.actor.as_str()),
        body: crate::text::string_from(n.body.as_str()),
    }
}

fn chain_exec(nodes: &Vec<Node>, ix: &Vec<usize>) -> (r: ConversationChain)
    requires
        indices_below(ix@, nodes@.len()),
    ensures
        chain_of(r, at_indices(nodes@, ix@)),
{
    let ghost ns = at_indices(nodes@, ix@);
    let mut out: Vec<ConversationNode> = Vec::new();
    let mut k: usize = 0;
    while k < ix.len()
        invariant
            k <= ix@.len(),
            indices_below(ix@, nodes@.len()),
            ns == at_indices(nodes@, ix@),
            out@.len() == k,
            forall|j: int| 0 <= j < k ==> conv_node_of(#[trigger] out@[j], ns[j]),
        decreases ix@.len() - k,
    {
        out.push(conv_node_exec(&nodes[ix[k]]));
        k += 1;
    }
    let last_is_open = if ix.len() > 0 {
        let n = &nodes[ix[ix.len() - 1]];
        !n.retracted && !n.incorporated && !n.resolved
    } else {
        false
    };
    ConversationChain { nodes: out, last_is_open }
}

fn incorporated_count_exec(nodes: &Vec<Node>) -> (r: usize)
    ensures
        r == incorporated_count(nodes@),
{
    let mut n: usize = 0;
    let mut i: usize = 0;
    while i < nodes.len()
        invariant
            i <= nodes@.len(),
            n == incorporated_nodes(nodes@.take(i as int)).len(),
            n <= i,
        decreases nodes@.len() - i,
    {
        proof {
            assert(nodes@.take(i + 1).drop_last() =~= nodes@.take(i as int));
            assert(nodes@.take(i + 1).last() == nodes@[i as int]);
        }
        if !nodes[i].retracted && nodes[i].incorporated {
            n = n + 1;
        }
        i += 1;
    }
    proof {
        assert(nodes@.take(i as int) =~= nodes@);
    }
    n
}

fn conversations_section(s: &ThreadState, compact: bool) -> (r: ConversationsSection)
    ensures
        conv_section_of(r, *s, compact),
{
    let convs = build_conversations(&s.nodes);
    let ghost cs = conversations(s.nodes@);
    let mut chains: Vec<ConversationChain> = Vec::new();
    let mut i: usize = 0;
    while i < convs.len()
        invariant
            i <= convs@.len(),
            convs@.len() == cs.len(),
            cs == conversations(s.nodes@),
            forall|c: int| 0 <= c < convs@.len() ==> at_indices(s.nodes@, (#[trigger] convs@[c])@) == cs[c]
                && indices_below(convs@[c]@, s.nodes@.len()),
            chains@.len() == i,
            forall|c: int| 0 <= c < i ==> chain_of(#[trigger] chains@[c], cs[c]),
        decreases convs@.len() - i,
    {
        let ch = chain_exec(&s.nodes, &convs[i]);
        chains.push(ch);
        i += 1;
    }
    let count = if compact { incorporated_count_exec(&s.nodes) } else { 0 };
    ConversationsSection { thread_id: crate::text::string_from(s.id.as_str()), chains, compact, incorporated_count: count }
}


proof fn lemma_conversations_nonempty(nodes: Seq<Node>, n: nat)
    requires
        n <= nodes.len(),
    ensures
        forall|i: int| 0 <= i < conversations_upto(nodes, n).len() ==> (#[trigger] conversations_upto(nodes, n)[i]).len() > 0,
    decreases n,
{
    if n > 0 {
        lemma_conversations_nonempty(nodes, (n - 1) as nat);
        lemma_grow_len(nodes, seq![nodes[n - 1]], 0, nodes.len());
        let r = conversations_upto(nodes, (n - 1) as nat);
        if !is_reply_id(nodes, nodes[n - 1].node_id@) {
            assert forall|i: int| 0 <= i < conversations_upto(nodes, n).len() implies (#[trigger] conversations_upto(nodes, n)[i]).len() > 0 by {
                if i < r.len() {
                    assert(conversations_upto(nodes, n)[i] == r[i]);
                } else {
                    assert(conversations_upto(nodes, n)[i] == conversation(nodes, nodes[n - 1]));
                }
            }
        }
    }
}

/// Every conversation section among these has its roots.
pub open spec fn all_rooted(secs: Seq<Section>) -> bool {
    forall|i: int| 0 <= i < secs.len() ==> ((#[trigger] secs[i]) matches Section::Conversations(x) ==> chains_rooted(x))
}

fn item_list_exec(label: &str, items: &Vec<Vec<char>>) -> (r: Vec<Vec<char>>)
    ensures
        views(r@) == item_list(label@, views(items@)),
{
    let mut out: Vec<Vec<char>> = Vec::new();
    if items.len() == 0 {
        proof {
            assert(views(out@) =~= item_list(label@, views(items@)));
        }
        return out;
    }
    let mut h = chars_of(label);
    push_str(&mut h, ": ");
    push_usize(&mut h, items.len());
    push_chars_line(&mut out, h);
    let ghost head = views(out@);
    let mut i: usize = 0;
    while i < items.len()
        invariant
            i <= items@.len(),
            views(out@) == head + views(items@).take(i as int),
        decreases items@.len() - i,
    {
        push_chars_line(&mut out, items[i].clone());
        proof {
            assert(views(items@).take(i + 1) =~= views(items@).take(i as int).push(items@[i as int]@));
        }
        i += 1;
    }
    proof {
        assert(views(items@).take(i as int) =~= views(items@));
    }
    push_chars_line(&mut out, Vec::new());
    proof {
        assert(views(out@) =~= item_list(label@, views(items@)));
    }
    out
}

fn incorporated_items_exec(nodes: &Vec<Node>) -> (r: Vec<Vec<char>>)
    ensures
        views(r@) == Seq::new(incorporated_nodes(nodes@).len(), |i: int| incorporated_line(incorporated_nodes(nodes@)[i])),
{
    let mut out: Vec<Vec<char>> = Vec::new();
    let mut i: usize = 0;
    while i < nodes.len()
        invariant
            i <= nodes@.len(),
            views(out@) == Seq::new(
                incorporated_nodes(nodes@.take(i as int)).len(),
                |k: int| incorporated_line(incorporated_nodes(nodes@.take(i as int))[k]),
            ),
        decreases nodes@.len() - i,
    {
        proof {
            assert(nodes@.take(i + 1).drop_last() =~= nodes@.take(i as int));
            assert(nodes@.take(i + 1).last() == nodes@[i as int]);
        }
        let x = &nodes[i];
        let ghost before = views(out@);
        if !x.retracted && x.incorporated {
            let mut v = chars_of("  - ");
            let sid = short_id_exec(x.node_id.as_str());
            append_chars(&mut v, sid.as_slice());
            push_str(&mut v, " ");
            push_str(&mut v, x.node_type.as_str());
            push_str(&mut v, " ");
            let f = first_line_exec(x.body.as_str());
            append_chars(&mut v, f.as_slice());
            push_chars_line(&mut out, v);
            proof {
                assert(v@ == incorporated_line(nodes@[i as int]));
            }
        }
        proof {
            assert(views(out@) =~= Seq::new(
                incorporated_nodes(nodes@.take(i + 1)).len(),
                |k: int| incorporated_line(incorporated_nodes(nodes@.take(i + 1))[k]),
            ));
        }
        i += 1;
    }
    proof {
        assert(nodes@.take(i as int) =~= nodes@);
    }
    out
}

fn evidence_items_exec(evs: &Vec<Evidence>) -> (r: Vec<Vec<char>>)
    ensures
        views(r@) == Seq::new(evs@.len(), |i: int| evidence_line(evs@[i])),
{
    let mut out: Vec<Vec<char>> = Vec::new();
    let mut i: usize = 0;
    while i < evs.len()
        invariant
            i <= evs@.len(),
            views(out@) == Seq::new(i as nat, |k: int| evidence_line(evs@[k])),
        decreases evs@.len() - i,
    {
        let e = &evs[i];
        let mut v = chars_of("  - ");
        let cs = chars_of(e.evidence_id.as_str());
        let k = prefix_within_exec(cs.as_slice(), 8);
        let short = slice_range(cs.as_slice(), 0, k);
        proof {
            assert(short@ =~= short_evidence(e.evidence_id@));
        }
        append_chars(&mut v, short.as_slice());
        push_str(&mut v, "  ");
        push_str(&mut v, e.kind.as_str());
        push_str(&mut v, "  ");
        push_str(&mut v, e.ref_target.as_str());
        push_chars_line(&mut out, v);
        proof {
            assert(views(out@) =~= Seq::new((i + 1) as nat, |k: int| evidence_line(evs@[k])));
        }
        i += 1;
    }
    out
}

fn link_items_exec(links: &Vec<ThreadLink>) -> (r: Vec<Vec<char>>)
    ensures
        views(r@) == Seq::new(links@.len(), |i: int| link_line(links@[i])),
{
    let mut out: Vec<Vec<char>> = Vec::new();
    let mut i: usize = 0;
    while i < links.len()
        invariant
            i <= links@.len(),
            views(out@) == Seq::new(i as nat, |k: int| link_line(links@[k])),
        decreases links@.len() - i,
    {
        let mut v = chars_of("  - ");
        push_str(&mut v, links[i].target_thread_id.as_str());
        push_str(&mut v, "  ");
        push_str(&mut v, links[i].rel.as_str());
        push_chars_line(&mut out, v);
        proof {
            assert(views(out@) =~= Seq::new((i + 1) as nat, |k: int| link_line(links@[k])));
        }
        i += 1;
    }
    out
}

fn timeline_exec(s: &ThreadState, compact: bool, entries: &Option<Vec<SnapshotLogEntry>>) -> (r: Vec<Vec<char>>)
    ensures
        views(r@) == timeline_block(*s, compact, *entries),
{
    let mut out: Vec<Vec<char>> = Vec::new();
    push_chars_line(&mut out, chars_of("---"));
    push_chars_line(&mut out, Vec::new());
    let ghost top = views(out@);
    if compact {
        let count = match entries {
            Some(es) => es.len(),
            None => 0,
        };
        let mut v = chars_of("**timeline:** ");
        push_usize(&mut v, count);
        push_str(&mut v, " commits (use 'log ");
        push_str(&mut v, s.id.as_str());
        push_str(&mut v, "' for full view)");
        push_chars_line(&mut out, v);
    } else {
        push_chars_line(&mut out, chars_of("### timeline"));
        push_chars_line(&mut out, Vec::new());
        match entries {
            None => push_chars_line(&mut out, chars_of("_(timeline unavailable; no snapshot ref loaded)_")),
            Some(es) => {
                let ghost mid = views(out@);
                let mut i: usize = 0;
                while i < es.len()
                    invariant
                        i <= es@.len(),
                        views(out@) == mid + history_rows(es@).take(i as int),
                    decreases es@.len() - i,
                {
                    push_chars_line(&mut out, chars_of(es[i].row.as_str()));
                    proof {
                        assert(history_rows(es@).take(i + 1) =~= history_rows(es@).take(i as int).push(es@[i as int].row@));
                    }
                    i += 1;
                }
                proof {
                    assert(history_rows(es@).take(i as int) =~= history_rows(es@));
                }
            },
        }
    }
    push_chars_line(&mut out, Vec::new());
    proof {
        assert(views(out@) =~= timeline_block(*s, compact, *entries));
    }
    out
}

fn sections_head(out: &mut Vec<Section>, s: &ThreadState, options: &ShowOptions, Ghost(ps0): Ghost<Seq<spec_fn(Section) -> bool>>)
    requires
        sections_meet(old(out)@, ps0),
        all_rooted(old(out)@),
    ensures
        sections_meet(final(out)@, ps0 + parts_head(*s, *options)),
        all_rooted(final(out)@),
{
    let c = options.compact;
    let ghost nodes = s.nodes@;
    let ghost mut ps = ps0;
    let h = header_lines_exec(s, c, &options.policy);
    let ghost p0 = text_part(header_lines(*s, c, options.policy));
    push_section(out, text_section(h), Ghost(ps), Ghost(p0));
    proof {
        ps = ps.push(p0);
    }
    if !c && s.body_revision_count > 0 {
        let mut v = chars_of("**body revisions:** ");
        push_usize(&mut v, s.body_revision_count);
        let mut ls: Vec<Vec<char>> = Vec::new();
        push_chars_line(&mut ls, v);
        let ghost p1 = text_part(seq!["**body revisions:** "@ + decimal(s.body_revision_count as nat)]);
        proof {
            assert(views(ls@) =~= seq!["**body revisions:** "@ + decimal(s.body_revision_count as nat)]);
        }
        push_section(out, text_section(ls), Ghost(ps), Ghost(p1));
        proof {
            ps = ps.push(p1);
        }
    }
    if !c {
        let items = incorporated_items_exec(&s.nodes);
        if items.len() > 0 {
            let ls = item_list_exec("incorporated nodes", &items);
            let ghost p2 = text_part(
                item_list(
                    "incorporated nodes"@,
                    Seq::new(incorporated_nodes(nodes).len(), |i: int| incorporated_line(incorporated_nodes(nodes)[i])),
                ),
            );
            push_section(out, text_section(ls), Ghost(ps), Ghost(p2));
            proof {
                ps = ps.push(p2);
            }
        }
    }
    proof {
        assert(ps =~= ps0 + parts_head(*s, *options));
    }
}

fn sections_items(out: &mut Vec<Section>, s: &ThreadState, options: &ShowOptions, Ghost(ps0): Ghost<Seq<spec_fn(Section) -> bool>>)
    requires
        sections_meet(old(out)@, ps0),
        all_rooted(old(out)@),
    ensures
        sections_meet(final(out)@, ps0 + parts_items(*s, *options)),
        all_rooted(final(out)@),
{
    let c = options.compact;
    let ghost mut ps = ps0;
    let ob = open_items_section(s, NodeType::Objection, c, true);
    push_section(out, Section::OpenObjections(ob), Ghost(ps), Ghost(objections_part(*s, c)));
    proof {
        ps = ps.push(objections_part(*s, c));
    }
    let ac = open_items_section(s, NodeType::Action, c, false);
    push_section(out, Section::OpenActions(ac), Ghost(ps), Ghost(actions_part(*s, c)));
    proof {
        ps = ps.push(actions_part(*s, c));
    }
    match latest_summary_exec(&s.nodes) {
        Some(b) => {
            let mut ls: Vec<Vec<char>> = Vec::new();
            push_chars_line(&mut ls, chars_of("**latest summary:**"));
            let mut v = chars_of("  ");
            push_str(&mut v, b.as_str());
            push_chars_line(&mut ls, v);
            push_chars_line(&mut ls, Vec::new());
            let ghost p3 = text_part(seq!["**latest summary:**"@, "  "@ + b@, Seq::<char>::empty()]);
            proof {
                assert(views(ls@) =~= seq!["**latest summary:**"@, "  "@ + b@, Seq::<char>::empty()]);
            }
            push_section(out, text_section(ls), Ghost(ps), Ghost(p3));
            proof {
                ps = ps.push(p3);
            }
        },
        None => {},
    }
    if !c && s.evidence_items.len() > 0 {
        let items = evidence_items_exec(&s.evidence_items);
        let ls = item_list_exec("evidence", &items);
        let ghost p4 = text_part(
            item_list("evidence"@, Seq::new(s.evidence_items@.len(), |i: int| evidence_line(s.evidence_items@[i]))),
        );
        push_section(out, text_section(ls), Ghost(ps), Ghost(p4));
        proof {
            ps = ps.push(p4);
        }
    }
    if s.links.len() > 0 {
        let items = link_items_exec(&s.links);
        let ls = item_list_exec("links", &items);
        let ghost p5 = text_part(item_list("links"@, Seq::new(s.links@.len(), |i: int| link_line(s.links@[i]))));
        push_section(out, text_section(ls), Ghost(ps), Ghost(p5));
        proof {
            ps = ps.push(p5);
        }
    }
    proof {
        assert(ps =~= ps0 + parts_items(*s, *options));
    }
}

fn sections_tail(out: &mut Vec<Section>, s: &ThreadState, options: &ShowOptions, Ghost(ps0): Ghost<Seq<spec_fn(Section) -> bool>>)
    requires
        sections_meet(old(out)@, ps0),
        all_rooted(old(out)@),
    ensures
        sections_meet(final(out)@, ps0 + parts_tail(*s, *options)),
        all_rooted(final(out)@),
{
    let c = options.compact;
    let ghost mut ps = ps0;
    let cv = conversations_section(s, c);
    proof {
        lemma_conversations_nonempty(s.nodes@, s.nodes@.len());
        assert forall|i: int| 0 <= i < cv.chains@.len() implies (#[trigger] cv.chains@[i]).nodes@.len() > 0 by {
            assert(chain_of(cv.chains@[i], conversations(s.nodes@)[i]));
        }
    }
    push_section(out, Section::Conversations(cv), Ghost(ps), Ghost(conversations_part(*s, c)));
    proof {
        ps = ps.push(conversations_part(*s, c));
    }
    if !options.no_timeline {
        let ls = timeline_exec(s, c, &options.timeline_entries);
        let ghost p6 = text_part(timeline_block(*s, c, options.timeline_entries));
        push_section(out, text_section(ls), Ghost(ps), Ghost(p6));
        proof {
            ps = ps.push(p6);
        }
    }
    if !c && (open_count_exec(&s.nodes, NodeType::Objection) > 0 || open_count_exec(&s.nodes, NodeType::Action) > 0) {
        let mut ls: Vec<Vec<char>> = Vec::new();
        let mut v = chars_of("tip: run `git forum show ");
        push_str(&mut v, s.id.as_str());
        push_str(&mut v, " --what-next` for action guidance");
        push_chars_line(&mut ls, v);
        push_chars_line(&mut ls, Vec::new());
        let ghost p7 = text_part(
            seq!["tip: run `git forum show "@ + s.id@ + " --what-next` for action guidance"@, Seq::<char>::empty()],
        );
        proof {
            assert(views(ls@) =~= seq![
                "tip: run `git forum show "@ + s.id@ + " --what-next` for action guidance"@,
                Seq::<char>::empty(),
            ]);
        }
        push_section(out, text_section(ls), Ghost(ps), Ghost(p7));
        proof {
            ps = ps.push(p7);
        }
    }
    proof {
        assert(ps =~= ps0 + parts_tail(*s, *options));
    }
}

/// The sections of `git forum show` (see [`full_parts`]). Node IDs are
/// cut at 16 bytes and evidence IDs at 8, on character boundaries.
pub fn render_full_sections(state: &ThreadState, options: &ShowOptions) -> (r: Vec<Section>)
    requires
        node_ids_cut_ok(state.nodes@),
        evidence_ids_cut_ok(state.evidence_items@),
    ensures
        sections_meet(r@, full_parts(*state, *options)),
        all_rooted(r@),
{
    let mut out: Vec<Section> = Vec::new();
    let ghost empty: Seq<spec_fn(Section) -> bool> = seq![];
    proof {
        assert(sections_meet(out@, empty));
    }
    sections_head(&mut out, state, options, Ghost(empty));
    sections_items(&mut out, state, options, Ghost(empty + parts_head(*state, *options)));
    sections_tail(&mut out, state, options, Ghost(empty + parts_head(*state, *options) + parts_items(*state, *options)));
    proof {
        assert(empty + parts_head(*state, *options) + parts_items(*state, *options) + parts_tail(*state, *options)
            =~= full_parts(*state, *options));
    }
    out
}

/// The plain-text lines of sections, one after the other.
pub open spec fn sections_lines(secs: Seq<Section>) -> Seq<Seq<char>>
    decreases secs.len(),
{
    if secs.len() == 0 {
        seq![]
    } else {
        sections_lines(secs.drop_last()) + section_text(secs.last())
    }
}

/// The full view's text: its sections (see [`full_parts`]) joined.
pub open spec fn full_text(s: ThreadState, o: ShowOptions, r: Seq<char>) -> bool {
    exists|secs: Seq<Section>| #[trigger] sections_meet(secs, full_parts(s, o)) && r == join(sections_lines(secs), "\n"@)
}

fn render_full(state: &ThreadState, options: &ShowOptions) -> (r: String)
    requires
        node_ids_cut_ok(state.nodes@),
        evidence_ids_cut_ok(state.evidence_items@),
    ensures
        full_text(*state, *options, r@),
{
    let secs = render_full_sections(state, options);
    let mut lines: Vec<Vec<char>> = Vec::new();
    let mut i: usize = 0;
    while i < secs.len()
        invariant
            i <= secs@.len(),
            all_rooted(secs@),
            views(lines@) == sections_lines(secs@.take(i as int)),
        decreases secs@.len() - i,
    {
        proof {
            assert(secs@.take(i + 1).drop_last() =~= secs@.take(i as int));
            assert(secs@.take(i + 1).last() == secs@[i as int]);
        }
        let ls = secs[i].to_text_lines();
        let ghost before = views(lines@);
        push_strings(&mut lines, &ls);
        i += 1;
    }
    proof {
        assert(secs@.take(i as int) =~= secs@);
        assert(sections_meet(secs@, full_parts(*state, *options)));
    }
    join_to_string(&lines, "\n")
}


// ---------------------------------------------------------------------------
// `git forum node show`
// ---------------------------------------------------------------------------

/// The history entries that changed a node's files.
pub open spec fn touching(es: Seq<SnapshotLogEntry>, id: Seq<char>) -> Seq<SnapshotLogEntry>
    decreases es.len(),
{
    if es.len() == 0 {
        seq![]
    } else {
        let r = touching(es.drop_last(), id);
        let ps = strs(es.last().paths@);
        if ps.contains("nodes/"@ + id + ".toml"@) || ps.contains("nodes/"@ + id + ".md"@) {
            r.push(es.last())
        } else {
            r
        }
    }
}

/// The history of one node: the rows of the commits that changed its
/// files, or a placeholder.
pub open spec fn node_history(id: Seq<char>, entries: Option<Vec<SnapshotLogEntry>>) -> Seq<Seq<char>> {
    match entries {
        None => seq!["_(history unavailable; no snapshot ref loaded)_"@],
        Some(es) => if touching(es@, id).len() == 0 {
            seq!["_(no snapshot commits touched this node)_"@]
        } else {
            history_rows(touching(es@, id))
        },
    }
}

/// The head of `node show`: the node, its thread and its metadata.
pub open spec fn node_show_head(l: NodeLookup) -> Seq<Seq<char>> {
    let n = l.node;
    let tags = strs(l.thread_tags@);
    seq![
        "## "@ + short_node_id(n.node_id@) + " "@ + node_label(n),
        Seq::<char>::empty(),
        "**thread:**    "@ + l.thread_id@ + " "@ + l.thread_title@,
        "**lifecycle:** "@ + lifecycle_name(lifecycle_for_category(l.thread_category@, tags)),
    ] + (if tags.len() > 0 {
        seq!["**tags:**      "@ + join(tags, ", "@)]
    } else {
        seq![]
    }) + seq![
        "**status:**    "@ + node_status_word(n),
        "**created:**   "@ + iso_text(n.created_at),
        "**by:**        "@ + n.actor@,
    ] + match n.reply_to {
        Some(p) => seq!["**reply-to:**  "@ + short_node_id(p@)],
        None => seq![],
    }
}

/// The links block of `node show`; nothing without links.
pub open spec fn node_show_links(links: Seq<ThreadLink>) -> Seq<Seq<char>> {
    if links.len() == 0 {
        seq![]
    } else {
        seq!["---"@, Seq::<char>::empty(), "### thread links ("@ + decimal(links.len()) + ")"@, Seq::<char>::empty()]
            + Seq::new(links.len(), |i: int| "- "@ + links[i].target_thread_id@ + "  "@ + links[i].rel@) + seq![
            Seq::<char>::empty(),
        ]
    }
}

/// `git forum node show`: the head, the body, the thread's links and,
/// unless left out, the node's history.
pub open spec fn node_show_text(l: NodeLookup, o: ShowOptions) -> Seq<char> {
    join(
        node_show_head(l) + seq![Seq::<char>::empty(), "---"@, Seq::<char>::empty()] + body_lines(l.node.body@) + seq![
            Seq::<char>::empty(),
        ] + node_show_links(l.links@) + if !o.no_timeline {
            seq!["---"@, Seq::<char>::empty(), "### history"@, Seq::<char>::empty()] + node_history(
                l.node.node_id@,
                o.timeline_entries,
            ) + seq![Seq::<char>::empty()]
        } else {
            seq![]
        },
        "\n"@,
    )
}

fn node_show_head_exec(l: &NodeLookup) -> (r: Vec<Vec<char>>)
    ensures
        views(r@) == node_show_head(*l),
{
    let n = &l.node;
    let mut out: Vec<Vec<char>> = Vec::new();
    let mut h = chars_of("## ");
    let sid = short_id_exec(n.node_id.as_str());
    append_chars(&mut h, sid.as_slice());
    push_str(&mut h, " ");
    push_str(&mut h, n.node_type.as_str());
    push_chars_line(&mut out, h);
    push_chars_line(&mut out, Vec::new());
    let mut t = chars_of("**thread:**    ");
    push_str(&mut t, l.thread_id.as_str());
    push_str(&mut t, " ");
    push_str(&mut t, l.thread_title.as_str());
    push_chars_line(&mut out, t);
    let mut lc = chars_of("**lifecycle:** ");
    push_str(&mut lc, lifecycle_label_for(l.thread_category.as_str(), l.thread_tags.as_slice()));
    push_chars_line(&mut out, lc);
    if l.thread_tags.len() > 0 {
        let mut tg = chars_of("**tags:**      ");
        let parts = crate::text::from_strings(l.thread_tags.as_slice());
        let sep = chars_of(", ");
        let j = join_chars(&parts, sep.as_slice());
        append_chars(&mut tg, j.as_slice());
        push_chars_line(&mut out, tg);
    }
    let mut st = chars_of("**status:**    ");
    push_str(&mut st, node_status_exec(n));
    push_chars_line(&mut out, st);
    let mut c = chars_of("**created:**   ");
    let ct = iso_exec(n.created_at);
    append_chars(&mut c, ct.as_slice());
    push_chars_line(&mut out, c);
    let mut by = chars_of("**by:**        ");
    push_str(&mut by, n.actor.as_str());
    push_chars_line(&mut out, by);
    match &n.reply_to {
        Some(p) => {
            let mut rt = chars_of("**reply-to:**  ");
            let ps = short_id_exec(p.as_str());
            append_chars(&mut rt, ps.as_slice());
            push_chars_line(&mut out, rt);
        },
        None => {},
    }
    proof {
        assert(views(out@) =~= node_show_head(*l));
    }
    out
}

fn node_show_links_exec(out: &mut Vec<Vec<char>>, links: &Vec<ThreadLink>)
    ensures
        views(final(out)@) == views(old(out)@) + node_show_links(links@),
{
    let ghost start = views(out@);
    if links.len() == 0 {
        proof {
            assert(views(out@) =~= start + node_show_links(links@));
        }
        return;
    }
    push_chars_line(out, chars_of("---"));
    push_chars_line(out, Vec::new());
    let mut h = chars_of("### thread links (");
    push_usize(&mut h, links.len());
    push_str(&mut h, ")");
    push_chars_line(out, h);
    push_chars_line(out, Vec::new());
    let ghost head = views(out@);
    let mut i: usize = 0;
    while i < links.len()
        invariant
            i <= links@.len(),
            views(out@) == head + Seq::new(i as nat, |k: int| "- "@ + links@[k].target_thread_id@ + "  "@ + links@[k].rel@),
        decreases links@.len() - i,
    {
        let mut v = chars_of("- ");
        push_str(&mut v, links[i].target_thread_id.as_str());
        push_str(&mut v, "  ");
        push_str(&mut v, links[i].rel.as_str());
        push_chars_line(out, v);
        proof {
            assert(views(out@) =~= head + Seq::new(
                (i + 1) as nat,
                |k: int| "- "@ + links@[k].target_thread_id@ + "  "@ + links@[k].rel@,
            ));
        }
        i += 1;
    }
    push_chars_line(out, Vec::new());
    proof {
        assert(views(out@) =~= start + node_show_links(links@));
    }
}

fn node_history_exec(out: &mut Vec<Vec<char>>, id: &str, entries: &Option<Vec<SnapshotLogEntry>>)
    ensures
        views(final(out)@) == views(old(out)@) + node_history(id@, *entries),
{
    let ghost start = views(out@);
    match entries {
        None => push_chars_line(out, chars_of("_(history unavailable; no snapshot ref loaded)_")),
        Some(es) => {
            let mut toml = chars_of("nodes/");
            push_str(&mut toml, id);
            push_str(&mut toml, ".toml");
            let mut md = chars_of("nodes/");
            push_str(&mut md, id);
            push_str(&mut md, ".md");
            let mut rows: Vec<Vec<char>> = Vec::new();
            let mut i: usize = 0;
            while i < es.len()
                invariant
                    i <= es@.len(),
                    toml@ == "nodes/"@ + id@ + ".toml"@,
                    md@ == "nodes/"@ + id@ + ".md"@,
                    views(rows@) == history_rows(touching(es@.take(i as int), id@)),
                decreases es@.len() - i,
            {
                proof {
                    assert(es@.take(i + 1).drop_last() =~= es@.take(i as int));
                    assert(es@.take(i + 1).last() == es@[i as int]);
                }
                let ps = crate::text::from_strings(es[i].paths.as_slice());
                let hit = crate::text::contains_chars(&ps, toml.as_slice()) || crate::text::contains_chars(
                    &ps,
                    md.as_slice(),
                );
                if hit {
                    let ghost before = views(rows@);
                    push_chars_line(&mut rows, chars_of(es[i].row.as_str()));
                    proof {
                        assert(views(rows@) =~= history_rows(touching(es@.take(i + 1), id@)));
                    }
                } else {
                    proof {
                        assert(history_rows(touching(es@.take(i + 1), id@)) =~= history_rows(touching(es@.take(i as int), id@)));
                    }
                }
                i += 1;
            }
            proof {
                assert(es@.take(i as int) =~= es@);
            }
            if rows.len() == 0 {
                push_chars_line(out, chars_of("_(no snapshot commits touched this node)_"));
            } else {
                let mut k: usize = 0;
                while k < rows.len()
                    invariant
                        k <= rows@.len(),
                        views(out@) == start + views(rows@).take(k as int),
                    decreases rows@.len() - k,
                {
                    push_chars_line(out, rows[k].clone());
                    proof {
                        assert(views(rows@).take(k + 1) =~= views(rows@).take(k as int).push(rows@[k as int]@));
                    }
                    k += 1;
                }
                proof {
                    assert(views(rows@).take(k as int) =~= views(rows@));
                }
            }
        },
    }
    proof {
        assert(views(out@) =~= start + node_history(id@, *entries));
    }
}

/// `git forum node show` for one node (see [`node_show_text`]). The node
/// ID and the ID it replies to are cut at 16 bytes on character
/// boundaries.
pub fn render_node_show(lookup: &NodeLookup, options: &ShowOptions) -> (r: String)
    requires
        cut_ok(lookup.node.node_id@),
        lookup.node.reply_to matches Some(p) ==> cut_ok(p@),
    ensures
        r@ == node_show_text(*lookup, *options),
{
    let mut lines = node_show_head_exec(lookup);
    let ghost head = views(lines@);
    push_chars_line(&mut lines, Vec::new());
    push_chars_line(&mut lines, chars_of("---"));
    push_chars_line(&mut lines, Vec::new());
    body_lines_exec(&mut lines, lookup.node.body.as_str());
    push_chars_line(&mut lines, Vec::new());
    node_show_links_exec(&mut lines, &lookup.links);
    let ghost mid = views(lines@);
    if !options.no_timeline {
        push_chars_line(&mut lines, chars_of("---"));
        push_chars_line(&mut lines, Vec::new());
        push_chars_line(&mut lines, chars_of("### history"));
        push_chars_line(&mut lines, Vec::new());
        node_history_exec(&mut lines, lookup.node.node_id.as_str(), &options.timeline_entries);
        push_chars_line(&mut lines, Vec::new());
    }
    proof {
        let want = node_show_head(*lookup) + seq![Seq::<char>::empty(), "---"@, Seq::<char>::empty()] + body_lines(
            lookup.node.body@,
        ) + seq![Seq::<char>::empty()] + node_show_links(lookup.links@) + if !options.no_timeline {
            seq!["---"@, Seq::<char>::empty(), "### history"@, Seq::<char>::empty()] + node_history(
                lookup.node.node_id@,
                options.timeline_entries,
            ) + seq![Seq::<char>::empty()]
        } else {
            seq![]
        };
        assert(views(lines@) =~= want);
    }
    join_to_string(&lines, "\n")
}

// ---------------------------------------------------------------------------
// `git forum show`
// ---------------------------------------------------------------------------

/// `git forum show` in the chosen mode: the full view (see [`full_text`]),
/// the open items (`status`), the next statuses with their guards and
/// checks (`what-next`, which needs a policy), or the hint after a state
/// change (which needs one too). Node IDs are cut at 16 bytes and, in the
/// full view, evidence IDs at 8, on character boundaries.
pub fn render_show(state: &ThreadState, options: &ShowOptions) -> (r: String)
    requires
        options.mode != ShowMode::WhatNext ==> node_ids_cut_ok(state.nodes@),
        options.mode == ShowMode::Full ==> evidence_ids_cut_ok(state.evidence_items@),
        options.mode == ShowMode::WhatNext || options.mode == ShowMode::ActionHint ==> options.policy is Some,
    ensures
        options.mode == ShowMode::Full ==> full_text(*state, *options, r@),
        options.mode == ShowMode::Status ==> r@ == status_text(*state),
        options.mode == ShowMode::WhatNext ==> exists|la: Seq<(Seq<char>, Seq<char>, Seq<(Seq<char>, Seq<char>)>)>|
            lookahead_spec(options.policy->0, *state, la) && r@ == what_next_text(options.policy->0, *state, la),
        options.mode == ShowMode::ActionHint ==> r@ == action_hint_text(options.policy->0, *state),
{
    match options.mode {
        ShowMode::Full => render_full(state, options),
        ShowMode::Status => render_status_block(state),
        ShowMode::WhatNext => match &options.policy {
            Some(p) => render_what_next_block(state, p),
            None => String::new(),
        },
        ShowMode::ActionHint => match &options.policy {
            Some(p) => render_action_hint(state, p),
            None => String::new(),
        },
    }
}

} // verus!
