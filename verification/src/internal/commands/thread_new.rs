//! `git forum new <preset>` and `git forum thread new`: the subcommand
//! and argument types, and the lifecycle / category / preset helpers.

use vstd::prelude::*;

use crate::internal::error::ForumError;
use crate::internal::event::{Lifecycle, lifecycle_from_name, lifecycle_name, NodeType};
use crate::internal::policy::{lifecycle_for_category, presets, preset_names, CategoryPreset};
use crate::text::{
    chars_of, string_of, push_str, str_eq, strs, join, string_from, append_chars, lines, lines_of,
    join_to_string, views, take_chars, clone_strings,
};

verus! {

/// Canonical thread sub-commands.
pub enum ThreadCmd {
    /// Create a thread with explicit lifecycle and tags.
    New {
        title: Option<String>,
        lifecycle: String,
        tag: Vec<String>,
        body: Option<String>,
        body_file: Option<String>,
        edit: bool,
        branch: Option<String>,
        link_to: Vec<String>,
        rel: Option<String>,
        as_actor: Option<String>,
        from_commit: Option<String>,
        from_thread: Option<String>,
        force: bool,
    },
}

/// Inline node bodies attached by `git forum new <preset>`.
#[derive(Default)]
pub struct ThreadNewInline {
    pub claim: Vec<String>,
    pub question: Vec<String>,
    pub objection: Vec<String>,
    pub action: Vec<String>,
    pub risk: Vec<String>,
    pub summary: Vec<String>,
}

/// Arguments of thread creation (both surfaces).
pub struct ThreadNewArgs {
    pub title: Option<String>,
    pub body: Option<String>,
    pub body_file: Option<String>,
    pub edit: bool,
    pub branch: Option<String>,
    pub link_to: Vec<String>,
    pub rel: Option<String>,
    pub as_actor: Option<String>,
    pub from_commit: Option<String>,
    pub from_thread: Option<String>,
    pub inline: ThreadNewInline,
    pub force: bool,
    pub lifecycle: Lifecycle,
    pub tags: Vec<String>,
}

/// The category a lifecycle maps to: proposals are `rfc`, execution and
/// records are `task`.
pub open spec fn category_of(l: Lifecycle) -> Seq<char> {
    match l {
        Lifecycle::Proposal => "rfc"@,
        Lifecycle::Execution | Lifecycle::Record => "task"@,
    }
}

/// Map a lifecycle onto its built-in category.
pub fn lifecycle_to_category(lifecycle: Lifecycle) -> (r: &'static str)
    ensures
        r@ == category_of(lifecycle),
{
    match lifecycle {
        Lifecycle::Proposal => "rfc",
        Lifecycle::Execution | Lifecycle::Record => "task",
    }
}

/// Records carry the `decision` tag (added once); other lifecycles add
/// nothing.
pub fn augment_tags_for_lifecycle(lifecycle: Lifecycle, tags: &mut Vec<String>)
    ensures
        strs(final(tags)@) == if lifecycle == Lifecycle::Record && !strs(old(tags)@).contains("decision"@) {
            strs(old(tags)@).push("decision"@)
        } else {
            strs(old(tags)@)
        },
{
    match lifecycle {
        Lifecycle::Record => {
            if !has_tag(tags.as_slice(), "decision") {
                let ghost before = strs(tags@);
                tags.push(string_from("decision"));
                proof {
                    assert(strs(tags@) =~= before.push("decision"@));
                }
            }
        },
        Lifecycle::Proposal | Lifecycle::Execution => {},
    }
}

/// Whether `tags` holds `t`.
pub fn has_tag(tags: &[String], t: &str) -> (r: bool)
    ensures
        r == strs(tags@).contains(t@),
{
    let mut i: usize = 0;
    while i < tags.len()
        invariant
            i <= tags@.len(),
            forall|j: int| 0 <= j < i ==> tags@[j]@ != t@,
        decreases tags@.len() - i,
    {
        if str_eq(tags[i].as_str(), t) {
            proof {
                assert(strs(tags@)[i as int] == t@);
            }
            return true;
        }
        i += 1;
    }
    proof {
        if strs(tags@).contains(t@) {
            let k = choose|k: int| 0 <= k < strs(tags@).len() && strs(tags@)[k] == t@;
            assert(tags@[k]@ == t@);
        }
    }
    false
}

/// The lifecycle of a category and tags (see [`lifecycle_for_category`]).
pub fn legacy_lifecycle_for_category(category: &str, tags: &[String]) -> (r: Lifecycle)
    ensures
        r == lifecycle_for_category(category@, strs(tags@)),
{
    if str_eq(category, "task") {
        if has_tag(tags, "decision") {
            Lifecycle::Record
        } else {
            Lifecycle::Execution
        }
    } else {
        Lifecycle::Proposal
    }
}

/// The kind preset a name selects.
pub fn preset_lookup(name: &str) -> (r: Option<CategoryPreset>)
    ensures
        match r {
            Some(p) => crate::internal::policy::preset_canonical(name@) == Some(p.name@),
            None => crate::internal::policy::preset_canonical(name@) is None,
        },
{
    crate::internal::policy::preset_lookup(name)
}

/// The preset names joined with `, ` (for error messages).
pub fn valid_preset_names() -> (r: String)
    ensures
        r@ == join(preset_names(), ", "@),
{
    let ps = presets();
    let mut names: Vec<Vec<char>> = Vec::new();
    let mut i: usize = 0;
    while i < ps.len()
        invariant
            i <= ps@.len(),
            ps@.len() == preset_names().len(),
            forall|j: int| 0 <= j < ps@.len() ==> (#[trigger] ps@[j]).name@ == preset_names()[j],
            names@.len() == i,
            forall|j: int| 0 <= j < i ==> #[trigger] names@[j]@ == preset_names()[j],
        decreases ps@.len() - i,
    {
        names.push(chars_of(ps[i].name));
        i += 1;
    }
    proof {
        assert(crate::text::views(names@) =~= preset_names());
    }
    crate::text::join_to_string(&names, ", ")
}

/// The message for an unknown lifecycle name.
pub open spec fn unknown_lifecycle_message(s: Seq<char>) -> Seq<char> {
    "unknown lifecycle '"@ + s + "'; valid: proposal, execution, record"@
}

/// Parse a lifecycle name.
pub fn parse_lifecycle(s: &str) -> (r: Result<Lifecycle, ForumError>)
    ensures
        match r {
            Ok(l) => lifecycle_from_name(s@) == Some(l),
            Err(e) => lifecycle_from_name(s@) is None && e == ForumError::Config(e->Config_0)
                && e->Config_0@ == unknown_lifecycle_message(s@),
        },
{
    match Lifecycle::parse(s) {
        Some(l) => Ok(l),
        None => {
            let mut v = chars_of("unknown lifecycle '");
            push_str(&mut v, s);
            push_str(&mut v, "'; valid: proposal, execution, record");
            Err(ForumError::Config(string_of(v.as_slice())))
        },
    }
}

/// A body that a command requires: the resolved body, or the error that
/// names the three ways to give one.
pub fn resolve_body_required(resolved: Option<String>) -> (r: Result<String, ForumError>)
    ensures
        match resolved {
            Some(b) => r == Ok::<String, ForumError>(b),
            None => r matches Err(ForumError::Config(m)) && m@ == "--body, --body-file, or --edit is required"@,
        },
{
    match resolved {
        Some(b) => Ok(b),
        None => Err(ForumError::Config(string_from("--body, --body-file, or --edit is required"))),
    }
}

// ---------------------------------------------------------------------------
// What a new thread is made of
// ---------------------------------------------------------------------------

/// The lines left once the leading empty ones are dropped.
pub open spec fn after_blank_lines(ls: Seq<Seq<char>>) -> Seq<Seq<char>>
    decreases ls.len(),
{
    if ls.len() > 0 && ls[0].len() == 0 {
        after_blank_lines(ls.drop_first())
    } else {
        ls
    }
}

/// A commit message's subject: its first line (empty when it has none).
pub open spec fn commit_subject(msg: Seq<char>) -> Seq<char> {
    let ls = lines(msg);
    if ls.len() == 0 {
        Seq::<char>::empty()
    } else {
        ls[0]
    }
}

/// A commit message's body: the lines after the subject, less the empty
/// lines that open them, joined by `\n`.
pub open spec fn commit_body(msg: Seq<char>) -> Seq<char> {
    let ls = lines(msg);
    if ls.len() == 0 {
        Seq::<char>::empty()
    } else {
        join(after_blank_lines(ls.drop_first()), "\n"@)
    }
}

/// Split a commit message into its subject and body.
pub fn commit_message_parts(msg: &str) -> (r: (String, String))
    ensures
        r.0@ == commit_subject(msg@),
        r.1@ == commit_body(msg@),
{
    let cs = chars_of(msg);
    let ls = lines_of(cs.as_slice());
    if ls.len() == 0 {
        return (String::new(), String::new());
    }
    let subject = string_of(ls[0].as_slice());
    let mut k: usize = 1;
    proof {
        assert(views(ls@).skip(1) =~= views(ls@).drop_first());
    }
    while k < ls.len() && ls[k].len() == 0
        invariant
            1 <= k <= ls@.len(),
            after_blank_lines(views(ls@).skip(k as int)) == after_blank_lines(views(ls@).drop_first()),
        decreases ls@.len() - k,
    {
        proof {
            assert(views(ls@).skip(k as int).drop_first() =~= views(ls@).skip(k + 1));
            assert(views(ls@).skip(k as int)[0] == ls@[k as int]@);
        }
        k += 1;
    }
    let mut rest: Vec<Vec<char>> = Vec::new();
    let mut j: usize = k;
    while j < ls.len()
        invariant
            k <= j <= ls@.len(),
            views(rest@) == views(ls@).subrange(k as int, j as int),
        decreases ls@.len() - j,
    {
        let ghost before = views(rest@);
        rest.push(ls[j].clone());
        proof {
            assert(views(rest@) =~= before.push(ls@[j as int]@));
            assert(views(ls@).subrange(k as int, j + 1) =~= views(ls@).subrange(k as int, j as int).push(
                ls@[j as int]@,
            ));
        }
        j += 1;
    }
    proof {
        assert(views(ls@).subrange(k as int, j as int) =~= views(ls@).skip(k as int));
        if k < ls@.len() {
            assert(views(ls@).skip(k as int)[0] == ls@[k as int]@);
        }
        assert(after_blank_lines(views(ls@).skip(k as int)) == views(ls@).skip(k as int));
    }
    (subject, join_to_string(&rest, "\n"))
}

pub open spec fn supersede_refusal() -> Seq<char> {
    "cannot create an execution thread --from-thread a proposal thread; an execution thread does not supersede a proposal. Use `git forum link <NEW> <SOURCE> --rel implements` instead."@
}

/// An execution thread cannot supersede a proposal (link it with
/// `--rel implements` instead); every other pair is allowed.
pub fn check_supersede(source: Lifecycle, new: Lifecycle) -> (r: Result<(), ForumError>)
    ensures
        r is Err <==> (source == Lifecycle::Proposal && new == Lifecycle::Execution),
        r matches Err(e) ==> e == ForumError::Config(e->Config_0) && e->Config_0@ == supersede_refusal(),
{
    match (source, new) {
        (Lifecycle::Proposal, Lifecycle::Execution) => Err(
            ForumError::Config(
                string_from(
                    "cannot create an execution thread --from-thread a proposal thread; an execution thread does not supersede a proposal. Use `git forum link <NEW> <SOURCE> --rel implements` instead.",
                ),
            ),
        ),
        _ => Ok(()),
    }
}

/// Where a new thread's title and body come from.
pub enum NewThreadSource {
    /// Only what the command line gives.
    Fresh,
    /// A thread it supersedes.
    FromThread { id: String, title: String, body: Option<String> },
    /// A commit, by its resolved ID and message.
    FromCommit { sha: String, message: String },
}

/// The title and body a new thread gets, the commit it records as
/// evidence, and the thread it supersedes.
pub struct NewThreadContent {
    pub title: String,
    pub body: Option<String>,
    pub commit_ref: Option<String>,
    pub supersedes: Option<String>,
}

pub open spec fn opt_seq(o: Option<String>) -> Option<Seq<char>> {
    match o {
        Some(s) => Some(s@),
        None => None,
    }
}

/// The rule: the given title wins; a superseding thread is otherwise
/// titled `v2: <source title>` and keeps the source's body when none is
/// given; a thread from a commit takes the commit's subject and, when none
/// is given, its body (if not empty); a fresh thread needs a title.
pub open spec fn content_rule(
    title: Option<Seq<char>>,
    body: Option<Seq<char>>,
    source: NewThreadSource,
    r: Result<NewThreadContent, ForumError>,
) -> bool {
    match source {
        NewThreadSource::FromThread { id, title: st, body: sb } => r matches Ok(c) && {
            &&& c.title@ == (match title {
                Some(t) => t,
                None => "v2: "@ + st@,
            })
            &&& opt_seq(c.body) == (match body {
                Some(b) => Some(b),
                None => opt_seq(sb),
            })
            &&& c.commit_ref is None
            &&& opt_seq(c.supersedes) == Some(id@)
        },
        NewThreadSource::FromCommit { sha, message } => r matches Ok(c) && {
            &&& c.title@ == (match title {
                Some(t) => t,
                None => commit_subject(message@),
            })
            &&& opt_seq(c.body) == (match body {
                Some(b) => Some(b),
                None => if commit_body(message@).len() == 0 {
                    None
                } else {
                    Some(commit_body(message@))
                },
            })
            &&& opt_seq(c.commit_ref) == Some(sha@)
            &&& c.supersedes is None
        },
        NewThreadSource::Fresh => match title {
            None => r matches Err(ForumError::Config(m))
                && m@ == "title is required (or use --from-commit / --from-thread)"@,
            Some(t) => r matches Ok(c) && c.title@ == t && opt_seq(c.body) == body && c.commit_ref is None
                && c.supersedes is None,
        },
    }
}

/// Settle a new thread's title and body; `body` is the body the command
/// line gave (already read from a file, stdin or the editor).
pub fn new_thread_content(title: Option<String>, body: Option<String>, source: NewThreadSource) -> (r: Result<
    NewThreadContent,
    ForumError,
>)
    ensures
        content_rule(opt_seq(title), opt_seq(body), source, r),
{
    match source {
        NewThreadSource::FromThread { id, title: st, body: sb } => {
            let t = match title {
                Some(t) => t,
                None => {
                    let mut v = chars_of("v2: ");
                    let c = chars_of(st.as_str());
                    append_chars(&mut v, c.as_slice());
                    string_of(v.as_slice())
                },
            };
            let b = match body {
                Some(b) => Some(b),
                None => sb,
            };
            Ok(NewThreadContent { title: t, body: b, commit_ref: None, supersedes: Some(id) })
        },
        NewThreadSource::FromCommit { sha, message } => {
            let (subject, body_text) = commit_message_parts(message.as_str());
            let t = match title {
                Some(t) => t,
                None => subject,
            };
            let b = match body {
                Some(b) => Some(b),
                None => if body_text.as_str().is_empty() {
                    None
                } else {
                    Some(body_text)
                },
            };
            Ok(NewThreadContent { title: t, body: b, commit_ref: Some(sha), supersedes: None })
        },
        NewThreadSource::Fresh => match title {
            None => Err(ForumError::Config(string_from("title is required (or use --from-commit / --from-thread)"))),
            Some(t) => Ok(NewThreadContent { title: t, body, commit_ref: None, supersedes: None }),
        },
    }
}

/// The relation for `--link-to` targets: none needed without targets,
/// else `--rel` must be given.
pub fn link_rel(link_to: &[String], rel: Option<String>) -> (r: Result<Option<String>, ForumError>)
    ensures
        link_to@.len() == 0 ==> r == Ok::<Option<String>, ForumError>(None),
        link_to@.len() > 0 ==> match rel {
            Some(x) => r == Ok::<Option<String>, ForumError>(Some(x)),
            None => r matches Err(ForumError::Config(m)) && m@ == "--rel is required when --link-to is used"@,
        },
{
    if link_to.len() == 0 {
        return Ok(None);
    }
    match rel {
        Some(x) => Ok(Some(x)),
        None => Err(ForumError::Config(string_from("--rel is required when --link-to is used"))),
    }
}

/// The evidence ID of a commit: `c-` and the first eight characters of
/// its ID.
pub fn short_evidence_id(sha: &str) -> (r: String)
    ensures
        r@ == "c-"@ + sha@.take(if sha@.len() < 8 { sha@.len() as int } else { 8 }),
{
    let cs = chars_of(sha);
    let head = take_chars(cs.as_slice(), 8);
    let mut v = chars_of("c-");
    append_chars(&mut v, head.as_slice());
    string_of(v.as_slice())
}

/// A node given inline on the command line.
pub struct InlineNode {
    pub kind: NodeType,
    /// The label kept for the older node types folded into `comment`.
    pub label: Option<&'static str>,
    pub body: String,
}

pub open spec fn inline_group(bodies: Seq<String>, kind: NodeType, label: Option<Seq<char>>) -> Seq<(NodeType, Option<Seq<char>>, Seq<char>)> {
    Seq::new(bodies.len(), |i: int| (kind, label, bodies[i]@))
}

/// The inline nodes in the order they are added: objections, actions,
/// then claims, questions, risks and summaries as labelled comments.
pub open spec fn inline_order(x: ThreadNewInline) -> Seq<(NodeType, Option<Seq<char>>, Seq<char>)> {
    inline_group(x.objection@, NodeType::Objection, None) + inline_group(x.action@, NodeType::Action, None)
        + inline_group(x.claim@, NodeType::Comment, Some("claim"@)) + inline_group(
        x.question@,
        NodeType::Comment,
        Some("question"@),
    ) + inline_group(x.risk@, NodeType::Comment, Some("risk"@)) + inline_group(
        x.summary@,
        NodeType::Comment,
        Some("summary"@),
    )
}

pub open spec fn inline_view(n: InlineNode) -> (NodeType, Option<Seq<char>>, Seq<char>) {
    (
        n.kind,
        match n.label {
            Some(l) => Some(l@),
            None => None,
        },
        n.body@,
    )
}

fn push_inline(out: &mut Vec<InlineNode>, bodies: &Vec<String>, kind: NodeType, label: Option<&'static str>)
    ensures
        final(out)@.map_values(|n: InlineNode| inline_view(n)) == old(out)@.map_values(|n: InlineNode| inline_view(n))
            + inline_group(
            bodies@,
            kind,
            match label {
                Some(l) => Some(l@),
                None => None,
            },
        ),
{
    let ghost lv = match label {
        Some(l) => Some(l@),
        None => None,
    };
    let ghost start = out@.map_values(|n: InlineNode| inline_view(n));
    let mut i: usize = 0;
    while i < bodies.len()
        invariant
            i <= bodies@.len(),
            lv == (match label {
                Some(l) => Some(l@),
                None => None,
            }),
            out@.map_values(|n: InlineNode| inline_view(n)) == start + inline_group(bodies@.take(i as int), kind, lv),
        decreases bodies@.len() - i,
    {
        let ghost before = out@.map_values(|n: InlineNode| inline_view(n));
        let b = string_from(bodies[i].as_str());
        out.push(InlineNode { kind, label, body: b });
        proof {
            assert(out@.map_values(|n: InlineNode| inline_view(n)) =~= before.push((kind, lv, bodies@[i as int]@)));
            assert(inline_group(bodies@.take(i + 1), kind, lv) =~= inline_group(bodies@.take(i as int), kind, lv).push(
                (kind, lv, bodies@[i as int]@),
            ));
        }
        i += 1;
    }
    proof {
        assert(bodies@.take(i as int) =~= bodies@);
    }
}

/// The inline nodes of a new thread, in order (see [`inline_order`]).
pub fn inline_nodes(inline: &ThreadNewInline) -> (r: Vec<InlineNode>)
    ensures
        r@.map_values(|n: InlineNode| inline_view(n)) == inline_order(*inline),
{
    let mut out: Vec<InlineNode> = Vec::new();
    proof {
        assert(out@.map_values(|n: InlineNode| inline_view(n)) =~= Seq::<(NodeType, Option<Seq<char>>, Seq<char>)>::empty());
    }
    push_inline(&mut out, &inline.objection, NodeType::Objection, None);
    push_inline(&mut out, &inline.action, NodeType::Action, None);
    push_inline(&mut out, &inline.claim, NodeType::Comment, Some("claim"));
    push_inline(&mut out, &inline.question, NodeType::Comment, Some("question"));
    push_inline(&mut out, &inline.risk, NodeType::Comment, Some("risk"));
    push_inline(&mut out, &inline.summary, NodeType::Comment, Some("summary"));
    proof {
        assert(Seq::<(NodeType, Option<Seq<char>>, Seq<char>)>::empty() + inline_group(inline.objection@, NodeType::Objection, None)
            =~= inline_group(inline.objection@, NodeType::Objection, None));
    }
    out
}

/// The line printed once a thread is created.
pub fn created_message(thread_id: &str, supersedes: Option<&str>) -> (r: String)
    ensures
        r@ == "Created "@ + thread_id@ + match supersedes {
            Some(s) => " (supersedes "@ + s@ + ")"@,
            None => Seq::<char>::empty(),
        },
{
    let mut v = chars_of("Created ");
    push_str(&mut v, thread_id);
    match supersedes {
        Some(s) => {
            push_str(&mut v, " (supersedes ");
            push_str(&mut v, s);
            push_str(&mut v, ")");
        },
        None => {},
    }
    string_of(v.as_slice())
}

/// The prompt shown in the editor for a new thread's body.
pub fn new_thread_edit_hint(lifecycle: Lifecycle) -> (r: String)
    ensures
        r@ == "Compose body for new "@ + lifecycle_name(lifecycle) + " thread"@,
{
    let mut v = chars_of("Compose body for new ");
    push_str(&mut v, lifecycle.as_str());
    push_str(&mut v, " thread");
    string_of(v.as_slice())
}

} // verus!
